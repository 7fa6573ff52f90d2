use vstd::prelude::*;
use crate::attrs::{has_key, str_eq, AttrV};
use crate::context::FrameV;

verus! {

/// A rendered node as text: a key/value line, or a titled branch with children.
pub enum NodeV {
    Leaf(Seq<char>, Seq<char>),
    Branch(Seq<char>, Seq<NodeV>),
}

/// A node of the tree that an error is rendered into before it becomes text.
#[derive(Debug)]
pub enum RenderNode {
    KVLeaf { key: &'static str, value: String },
    Branch(RenderBranch),
}

/// A titled node with children.
#[derive(Debug)]
pub struct RenderBranch {
    pub title: String,
    pub children: Vec<RenderNode>,
}

impl RenderNode {
    pub open spec fn view(self) -> NodeV
        decreases self,
    {
        match self {
            RenderNode::KVLeaf { key, value } => NodeV::Leaf(key@, value@),
            RenderNode::Branch(b) => NodeV::Branch(
                b.title@,
                Seq::new(
                    b.children@.len(),
                    |i: int|
                        if 0 <= i < b.children@.len() {
                            b.children@[i].view()
                        } else {
                            NodeV::Leaf(Seq::empty(), Seq::empty())
                        },
                ),
            ),
        }
    }
}

impl RenderBranch {
    pub open spec fn view(self) -> NodeV {
        RenderNode::Branch(self)@
    }
}

/// The frames of the chain `c` that are shown when the frames with identities in
/// `seen` were shown above: those before the first one already seen.
pub open spec fn walk(c: Seq<FrameV>, seen: Seq<usize>) -> Seq<FrameV>
    decreases c.len(),
{
    if c.len() == 0 || seen.contains(c[0].id) {
        Seq::empty()
    } else {
        seq![c[0]] + walk(c.drop_first(), seen)
    }
}

/// The frames shown for each of the chains `cs` in turn.
pub open spec fn walk_all(cs: Seq<Seq<FrameV>>, seen: Seq<usize>) -> Seq<FrameV>
    decreases cs.len(),
{
    if cs.len() == 0 {
        Seq::empty()
    } else {
        walk_all(cs.drop_last(), seen) + walk(cs.last(), seen)
    }
}

/// The attributes of the frames `fs`, frame after frame.
pub open spec fn frame_pairs(fs: Seq<FrameV>) -> Seq<AttrV>
    decreases fs.len(),
{
    if fs.len() == 0 {
        Seq::empty()
    } else {
        frame_pairs(fs.drop_last()) + fs.last().attrs
    }
}

/// The identities of the frames `fs`.
pub open spec fn frame_ids(fs: Seq<FrameV>) -> Seq<usize> {
    fs.map_values(|f: FrameV| f.id)
}

/// The keys of the pairs `ps`.
pub open spec fn keys_of(ps: Seq<AttrV>) -> Seq<Seq<char>> {
    ps.map_values(|p: AttrV| p.0)
}

/// The pairs of `ps` whose key is not in `shown` and not in an earlier pair.
pub open spec fn fresh_pairs(ps: Seq<AttrV>, shown: Seq<Seq<char>>) -> Seq<AttrV>
    decreases ps.len(),
{
    if ps.len() == 0 {
        Seq::empty()
    } else {
        let prev = fresh_pairs(ps.drop_last(), shown);
        if shown.contains(ps.last().0) || has_key(ps.drop_last(), ps.last().0) {
            prev
        } else {
            prev.push(ps.last())
        }
    }
}

/// One leaf for each pair.
pub open spec fn leaves(ps: Seq<AttrV>) -> Seq<NodeV> {
    ps.map_values(|p: AttrV| NodeV::Leaf(p.0, p.1))
}

/// The views of the nodes `ns`.
pub open spec fn views(ns: Seq<RenderNode>) -> Seq<NodeV> {
    ns.map_values(|n: RenderNode| n@)
}

/// The texts of the keys `ks`.
pub open spec fn texts(ks: Seq<&'static str>) -> Seq<Seq<char>> {
    ks.map_values(|s: &'static str| s@)
}

pub proof fn lemma_views_push(ns: Seq<RenderNode>, n: RenderNode)
    ensures
        views(ns.push(n)) == views(ns).push(n@),
{
    assert(views(ns.push(n)) =~= views(ns).push(n@));
}

pub proof fn lemma_leaves_push(ps: Seq<AttrV>, p: AttrV)
    ensures
        leaves(ps.push(p)) == leaves(ps).push(NodeV::Leaf(p.0, p.1)),
        keys_of(ps.push(p)) == keys_of(ps).push(p.0),
{
    assert(leaves(ps.push(p)) =~= leaves(ps).push(NodeV::Leaf(p.0, p.1)));
    assert(keys_of(ps.push(p)) =~= keys_of(ps).push(p.0));
}

pub proof fn lemma_texts_push(ks: Seq<&'static str>, k: &'static str)
    ensures
        texts(ks.push(k)) == texts(ks).push(k@),
{
    assert(texts(ks.push(k)) =~= texts(ks).push(k@));
}

/// A branch is seen as its title over the views of its children.
pub proof fn lemma_branch_view(b: RenderBranch)
    ensures
        b@ == NodeV::Branch(b.title@, views(b.children@)),
{
    let v = RenderNode::Branch(b)@;
    match v {
        NodeV::Branch(t, c) => {
            assert(c.len() == b.children@.len());
            assert forall|i: int| 0 <= i < c.len() implies c[i] == views(b.children@)[i] by {
                assert(c[i] == b.children@[i].view());
            }
            assert(c =~= views(b.children@));
        },
        NodeV::Leaf(_, _) => {},
    }
}

/// Whether `x` is among `ids`.
pub fn contains_id(ids: &Vec<usize>, x: usize) -> (r: bool)
    ensures
        r == ids@.contains(x),
{
    let mut i: usize = 0;
    while i < ids.len()
        invariant
            0 <= i <= ids@.len(),
            forall|j: int| 0 <= j < i ==> ids@[j] != x,
        decreases ids@.len() - i,
    {
        if ids[i] == x {
            return true;
        }
        i = i + 1;
    }
    false
}

/// Whether `k` is among `keys`.
pub fn contains_key(keys: &Vec<&'static str>, k: &str) -> (r: bool)
    ensures
        r == texts(keys@).contains(k@),
{
    let mut i: usize = 0;
    while i < keys.len()
        invariant
            0 <= i <= keys@.len(),
            forall|j: int| 0 <= j < i ==> keys@[j]@ != k@,
        decreases keys@.len() - i,
    {
        if str_eq(keys[i], k) {
            assert(texts(keys@)[i as int] == k@);
            return true;
        }
        i = i + 1;
    }
    false
}

} // verus!
