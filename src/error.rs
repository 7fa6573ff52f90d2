use vstd::prelude::*;
use vstd::string::{to_string_from_display_ensures, StringExecFns};
use crate::attrs::{configures, has_key, keys_unique, takes_empty, AttrMap, AttrV};
use crate::context::{FrameV, Log};
use crate::layout::{compact, compact_text};
use crate::level::Level;
use crate::render::{
    contains_id, contains_key, frame_ids, frame_pairs, fresh_pairs, keys_of, leaves,
    lemma_branch_view, lemma_leaves_push, lemma_texts_push, lemma_views_push, texts, views, walk,
    walk_all, NodeV, RenderBranch, RenderNode,
};

verus! {

/// A structural error meant for people to read: a message, attributes, the
/// context chains it was made in, the errors that caused it and the errors that
/// happened while it was being handled.
#[derive(Debug)]
pub struct Error {
    message: String,
    attrs: AttrMap,
    context: Vec<Log>,
    causes: Vec<Error>,
    incidental: Vec<Error>,
}

/// Whether the error `e` has exactly these parts.
pub open spec fn has_parts(
    e: Error,
    message: Seq<char>,
    attrs: Seq<AttrV>,
    contexts: Seq<Seq<FrameV>>,
    causes: Seq<Error>,
    incidental: Seq<Error>,
) -> bool {
    &&& e.message() == message
    &&& e.attrs() == attrs
    &&& e.contexts() == contexts
    &&& e.causes() == causes
    &&& e.incidental() == incidental
}

/// The text that `to_string` gives for a value of type `M`.
pub open spec fn displays_as<M: std::fmt::Display>(m: M, s: Seq<char>) -> bool {
    exists|t: String| to_string_from_display_ensures::<M>(&m, t) && t@ == s
}

impl Error {
    /// The message.
    pub closed spec fn message(self) -> Seq<char> {
        self.message@
    }

    /// The error's own attributes.
    pub closed spec fn attrs(self) -> Seq<AttrV> {
        self.attrs@
    }

    /// The context chains attached to the error, each as its frames from the one
    /// attached to the root.
    pub closed spec fn contexts(self) -> Seq<Seq<FrameV>> {
        self.context@.map_values(|l: Log| l.frames())
    }

    /// The errors that caused this one.
    pub closed spec fn causes(self) -> Seq<Error> {
        self.causes@
    }

    /// The errors that happened while this one was being handled.
    pub closed spec fn incidental(self) -> Seq<Error> {
        self.incidental@
    }

    fn node(message: String, attrs: AttrMap, context: Vec<Log>, causes: Vec<Error>) -> (r: Error)
        ensures
            has_parts(
                r,
                message@,
                attrs@,
                context@.map_values(|l: Log| l.frames()),
                causes@,
                Seq::empty(),
            ),
    {
        Error { message, attrs, context, causes, incidental: Vec::new() }
    }

    /// An error whose message is `x` as `to_string` shows it, with nothing else.
    pub fn from<M: std::fmt::Display>(x: M) -> (r: Error)
        ensures
            displays_as(x, r.message()),
            r.attrs().len() == 0,
            r.contexts().len() == 0,
            r.causes().len() == 0,
            r.incidental().len() == 0,
    {
        let message = x.to_string();
        Error::node(message, AttrMap::new(), Vec::new(), Vec::new())
    }

    /// This error with `incidental` added as the last of the errors that happened
    /// while it was being handled. The message, attributes, contexts and causes
    /// stay as they are.
    pub fn also(self, incidental: Error) -> (r: Error)
        ensures
            has_parts(
                r,
                self.message(),
                self.attrs(),
                self.contexts(),
                self.causes(),
                self.incidental().push(incidental),
            ),
    {
        let Error { message, attrs, context, causes, incidental: mut list } = self;
        list.push(incidental);
        Error { message, attrs, context, causes, incidental: list }
    }

    /// A new error with `message` whose one cause is this error.
    pub fn context(self, message: &str) -> (r: Error)
        ensures
            has_parts(r, message@, Seq::empty(), Seq::empty(), seq![self], Seq::empty()),
    {
        let mut causes = Vec::new();
        causes.push(self);
        let r = Error::node(message.to_string(), AttrMap::new(), Vec::new(), causes);
        proof {
            assert(r.contexts() =~= Seq::empty());
            assert(r.causes() =~= seq![self]);
        }
        r
    }

    /// A new error with `message` and the attributes that `attrs` configures, whose
    /// one cause is this error.
    pub fn context_with<F: FnOnce(AttrMap) -> AttrMap>(self, message: &str, attrs: F) -> (r: Error)
        requires
            takes_empty(attrs),
        ensures
            configures(attrs, r.attrs()),
            r.message() == message@,
            r.contexts() == Seq::<Seq<FrameV>>::empty(),
            r.causes() == seq![self],
            r.incidental() == Seq::<Error>::empty(),
    {
        let mut causes = Vec::new();
        causes.push(self);
        let r = Error::node(message.to_string(), AttrMap::configured(attrs), Vec::new(), causes);
        proof {
            assert(r.contexts() =~= Seq::empty());
            assert(r.causes() =~= seq![self]);
        }
        r
    }

    /// A new error with `message` and the context chain `log`, whose one cause is
    /// this error.
    pub fn stack_context(self, log: &Log, message: &str) -> (r: Error)
        ensures
            has_parts(r, message@, Seq::empty(), seq![log.frames()], seq![self], Seq::empty()),
    {
        let mut causes = Vec::new();
        causes.push(self);
        let mut context = Vec::new();
        context.push(log.clone());
        let r = Error::node(message.to_string(), AttrMap::new(), context, causes);
        proof {
            assert(r.contexts() =~= seq![log.frames()]);
            assert(r.causes() =~= seq![self]);
        }
        r
    }

    /// A new error with `message`, the attributes that `attrs` configures and the
    /// context chain `log`, whose one cause is this error.
    pub fn stack_context_with<F: FnOnce(AttrMap) -> AttrMap>(self, log: &Log, message: &str, attrs: F) -> (r: Error)
        requires
            takes_empty(attrs),
        ensures
            configures(attrs, r.attrs()),
            r.message() == message@,
            r.contexts() == seq![log.frames()],
            r.causes() == seq![self],
            r.incidental() == Seq::<Error>::empty(),
    {
        let mut causes = Vec::new();
        causes.push(self);
        let mut context = Vec::new();
        context.push(log.clone());
        let r = Error::node(message.to_string(), AttrMap::configured(attrs), context, causes);
        proof {
            assert(r.contexts() =~= seq![log.frames()]);
            assert(r.causes() =~= seq![self]);
        }
        r
    }
}

/// A new error with `message` and nothing else. To take attributes from a context
/// chain, see `Log::err`.
pub fn err(message: &str) -> (r: Error)
    ensures
        has_parts(r, message@, Seq::empty(), Seq::empty(), Seq::empty(), Seq::empty()),
{
    let r = Error::node(message.to_string(), AttrMap::new(), Vec::new(), Vec::new());
    proof {
        assert(r.contexts() =~= Seq::empty());
        assert(r.causes() =~= Seq::empty());
    }
    r
}

/// A new error with `message` and the attributes that `attrs` configures.
pub fn err_with<F: FnOnce(AttrMap) -> AttrMap>(message: &str, attrs: F) -> (r: Error)
    requires
        takes_empty(attrs),
    ensures
        configures(attrs, r.attrs()),
        r.message() == message@,
        r.contexts() == Seq::<Seq<FrameV>>::empty(),
        r.causes() == Seq::<Error>::empty(),
        r.incidental() == Seq::<Error>::empty(),
{
    let r = Error::node(message.to_string(), AttrMap::configured(attrs), Vec::new(), Vec::new());
    proof {
        assert(r.contexts() =~= Seq::empty());
        assert(r.causes() =~= Seq::empty());
    }
    r
}

/// A new error with `message` caused by all of `errs`, in their order.
pub fn agg_err(message: &str, errs: Vec<Error>) -> (r: Error)
    ensures
        has_parts(r, message@, Seq::empty(), Seq::empty(), errs@, Seq::empty()),
{
    let r = Error::node(message.to_string(), AttrMap::new(), Vec::new(), errs);
    proof {
        assert(r.contexts() =~= Seq::empty());
    }
    r
}

/// A new error with `message` and the attributes that `attrs` configures, caused
/// by all of `errs`, in their order.
pub fn agg_err_with<F: FnOnce(AttrMap) -> AttrMap>(message: &str, errs: Vec<Error>, attrs: F) -> (r: Error)
    requires
        takes_empty(attrs),
    ensures
        configures(attrs, r.attrs()),
        r.message() == message@,
        r.contexts() == Seq::<Seq<FrameV>>::empty(),
        r.causes() == errs@,
        r.incidental() == Seq::<Error>::empty(),
{
    let r = Error::node(message.to_string(), AttrMap::configured(attrs), Vec::new(), errs);
    proof {
        assert(r.contexts() =~= Seq::empty());
    }
    r
}


impl Log {
    /// A new error with `message` that carries this context chain.
    pub fn err(&self, message: &str) -> (r: Error)
        ensures
            has_parts(r, message@, Seq::empty(), seq![self.frames()], Seq::empty(), Seq::empty()),
    {
        let mut context = Vec::new();
        context.push(self.clone());
        let r = Error::node(message.to_string(), AttrMap::new(), context, Vec::new());
        proof {
            assert(r.contexts() =~= seq![self.frames()]);
        }
        r
    }

    /// A new error with `message` and the attributes that `attrs` configures, that
    /// carries this context chain.
    pub fn err_with<F: FnOnce(AttrMap) -> AttrMap>(&self, message: &str, attrs: F) -> (r: Error)
        requires
            takes_empty(attrs),
        ensures
            configures(attrs, r.attrs()),
            r.message() == message@,
            r.contexts() == seq![self.frames()],
            r.causes() == Seq::<Error>::empty(),
            r.incidental() == Seq::<Error>::empty(),
    {
        let mut context = Vec::new();
        context.push(self.clone());
        let r = Error::node(message.to_string(), AttrMap::configured(attrs), context, Vec::new());
        proof {
            assert(r.contexts() =~= seq![self.frames()]);
        }
        r
    }

    /// A new error with `message` caused by all of `errs`, in their order, that
    /// carries this context chain.
    pub fn agg_err(&self, message: &str, errs: Vec<Error>) -> (r: Error)
        ensures
            has_parts(r, message@, Seq::empty(), seq![self.frames()], errs@, Seq::empty()),
    {
        let mut context = Vec::new();
        context.push(self.clone());
        let r = Error::node(message.to_string(), AttrMap::new(), context, errs);
        proof {
            assert(r.contexts() =~= seq![self.frames()]);
        }
        r
    }

    /// A new error with `message` and the attributes that `attrs` configures,
    /// caused by all of `errs`, in their order, that carries this context chain.
    pub fn agg_err_with<F: FnOnce(AttrMap) -> AttrMap>(&self, message: &str, errs: Vec<Error>, attrs: F) -> (r: Error)
        requires
            takes_empty(attrs),
        ensures
            configures(attrs, r.attrs()),
            r.message() == message@,
            r.contexts() == seq![self.frames()],
            r.causes() == errs@,
            r.incidental() == Seq::<Error>::empty(),
    {
        let mut context = Vec::new();
        context.push(self.clone());
        let r = Error::node(message.to_string(), AttrMap::configured(attrs), context, errs);
        proof {
            assert(r.contexts() =~= seq![self.frames()]);
        }
        r
    }
}


/// The tree that the error `e` renders into when the frames with identities in
/// `seen` were shown by an error above it. Its title is the message; its children
/// are the error's own attributes, then those of the context frames it shows that
/// no earlier child has the key of, then a branch "Caused by:" with the causes and
/// a branch "Incidentally:" with the incidental errors, each branch only where
/// there is something in it. The frames it shows are those of each context chain
/// up to the first one in `seen`; below it they count as seen too.
pub open spec fn render_tree(e: Error, seen: Seq<usize>) -> NodeV
    decreases e,
{
    let shown = walk_all(e.contexts(), seen);
    let below = seen + frame_ids(shown);
    let attrs = leaves(e.attrs()) + leaves(fresh_pairs(frame_pairs(shown), keys_of(e.attrs())));
    let causes = if e.causes().len() > 0 {
        seq![NodeV::Branch("Caused by:"@, render_all(e.causes(), below))]
    } else {
        Seq::empty()
    };
    let incidental = if e.incidental().len() > 0 {
        seq![NodeV::Branch("Incidentally:"@, render_all(e.incidental(), below))]
    } else {
        Seq::empty()
    };
    NodeV::Branch(e.message(), attrs + causes + incidental)
}

/// The trees that the errors `errs` render into, in order, each with the frames
/// with identities in `seen` counted as shown.
pub open spec fn render_all(errs: Seq<Error>, seen: Seq<usize>) -> Seq<NodeV>
    decreases errs,
{
    Seq::new(
        errs.len(),
        |i: int|
            if 0 <= i < errs.len() {
                render_tree(errs[i], seen)
            } else {
                NodeV::Leaf(Seq::empty(), Seq::empty())
            },
    )
}


/// Whether `k` is a key of `own` or of `ps`.
proof fn lemma_key_among(own: Seq<AttrV>, ps: Seq<AttrV>, k: Seq<char>)
    ensures
        (keys_of(own) + keys_of(ps)).contains(k) <==> (keys_of(own).contains(k) || has_key(ps, k)),
{
    let all = keys_of(own) + keys_of(ps);
    if all.contains(k) {
        let i = choose|i: int| 0 <= i < all.len() && all[i] == k;
        if i >= own.len() {
            assert(ps[i - own.len()].0 == k);
        }
    }
    if keys_of(own).contains(k) {
        let i = choose|i: int| 0 <= i < keys_of(own).len() && keys_of(own)[i] == k;
        assert(all[i] == k);
    }
    if has_key(ps, k) {
        let i = choose|i: int| 0 <= i < ps.len() && #[trigger] ps[i].0 == k;
        assert(all[own.len() + i] == k);
    }
}

/// A copy of the identities `ids`.
fn copy_ids(ids: &Vec<usize>) -> (r: Vec<usize>)
    ensures
        r@ == ids@,
{
    let mut r: Vec<usize> = Vec::new();
    let mut i: usize = 0;
    while i < ids.len()
        invariant
            0 <= i <= ids@.len(),
            r@ == ids@.take(i as int),
        decreases ids@.len() - i,
    {
        r.push(ids[i]);
        proof {
            assert(ids@.take(i + 1) =~= ids@.take(i as int).push(ids@[i as int]));
        }
        i = i + 1;
    }
    assert(ids@.take(ids@.len() as int) =~= ids@);
    r
}

impl Error {
    /// Renders the errors `errs`, in order, as trees below a branch titled
    /// `title`, each with the frames in `seen` counted as shown.
    fn build_branch(errs: &Vec<Error>, seen: &Vec<usize>, title: &str) -> (r: RenderNode)
        ensures
            r@ == NodeV::Branch(title@, render_all(errs@, seen@)),
        decreases errs@,
    {
        let mut subs: Vec<RenderNode> = Vec::new();
        let n = errs.len();
        let mut i: usize = 0;
        while i < n
            invariant
                n == errs@.len(),
                0 <= i <= n,
                views(subs@) =~= Seq::new(i as nat, |k: int| render_tree(errs@[k], seen@)),
            decreases n - i,
        {
            let b = errs[i].build_render_nodes(seen);
            let ghost prev = subs@;
            subs.push(RenderNode::Branch(b));
            proof {
                lemma_views_push(prev, RenderNode::Branch(b));
                assert(views(subs@) =~= Seq::new((i + 1) as nat, |k: int| render_tree(errs@[k], seen@)));
            }
            i = i + 1;
        }
        let b = RenderBranch { title: title.to_string(), children: subs };
        proof {
            assert(views(b.children@) =~= render_all(errs@, seen@));
            lemma_branch_view(b);
        }
        RenderNode::Branch(b)
    }

    /// The tree this error renders into when the frames with identities in `seen`
    /// were shown by an error above it.
    pub fn build_render_nodes(&self, seen: &Vec<usize>) -> (r: RenderBranch)
        ensures
            r@ == render_tree(*self, seen@),
        decreases self,
    {
        proof {
            Log::lemma_every_chain_nonempty();
        }
        let ghost own = self.attrs@;
        let mut children: Vec<RenderNode> = Vec::new();
        let mut shown_keys: Vec<&'static str> = Vec::new();
        let n = self.attrs.len();
        let mut i: usize = 0;
        while i < n
            invariant
                n == own.len(),
                own == self.attrs@,
                0 <= i <= n,
                views(children@) == leaves(own.take(i as int)),
                texts(shown_keys@) == keys_of(own.take(i as int)),
            decreases n - i,
        {
            let key = self.attrs.key_at(i);
            let value = self.attrs.value_at(i).clone();
            let ghost prev_children = children@;
            let ghost prev_keys = shown_keys@;
            children.push(RenderNode::KVLeaf { key, value });
            shown_keys.push(key);
            proof {
                lemma_views_push(prev_children, RenderNode::KVLeaf { key, value });
                lemma_texts_push(prev_keys, key);
                lemma_leaves_push(own.take(i as int), own[i as int]);
                assert(own.take(i + 1) =~= own.take(i as int).push(own[i as int]));
                assert(views(children@) =~= leaves(own.take(i + 1)));
                assert(texts(shown_keys@) =~= keys_of(own.take(i + 1)));
            }
            i = i + 1;
        }
        proof {
            assert(own.take(n as int) =~= own);
            assert(frame_pairs(Seq::<FrameV>::empty()) =~= Seq::<AttrV>::empty());
            assert(keys_of(own) + keys_of(Seq::<AttrV>::empty()) =~= keys_of(own));
            assert(leaves(own) + leaves(fresh_pairs(Seq::<AttrV>::empty(), keys_of(own))) =~= leaves(own));
        }
        let ghost contexts = self.contexts();
        let mut below = copy_ids(seen);
        let ghost mut shown: Seq<FrameV> = Seq::empty();
        let ghost mut pairs: Seq<AttrV> = Seq::empty();
        let m = self.context.len();
        let mut j: usize = 0;
        proof {
            assert(walk_all(contexts.take(0), seen@) =~= Seq::<FrameV>::empty());
            assert(seen@ + frame_ids(Seq::<FrameV>::empty()) =~= seen@);
        }
        while j < m
            invariant
                m == contexts.len(),
                contexts == self.contexts(),
                forall|l: Log| #[trigger] l.frames().len() >= 1,
                0 <= j <= m,
                shown == walk_all(contexts.take(j as int), seen@),
                pairs == frame_pairs(shown),
                views(children@) == leaves(own) + leaves(fresh_pairs(pairs, keys_of(own))),
                texts(shown_keys@) == keys_of(own) + keys_of(pairs),
                below@ == seen@ + frame_ids(shown),
            decreases m - j,
        {
            let mut at: Option<&Log> = Some(&self.context[j]);
            let ghost chain = contexts[j as int];
            let ghost mut here: Seq<FrameV> = Seq::empty();
            proof {
                assert(chain == self.context@[j as int].frames());
                assert(shown + here =~= shown);
            }
            loop
                invariant
                    forall|l: Log| #[trigger] l.frames().len() >= 1,
                    match at {
                        Some(l) => walk(chain, seen@) == here + walk(l.frames(), seen@),
                        None => walk(chain, seen@) == here,
                    },
                    pairs == frame_pairs(shown + here),
                    views(children@) == leaves(own) + leaves(fresh_pairs(pairs, keys_of(own))),
                    texts(shown_keys@) == keys_of(own) + keys_of(pairs),
                    below@ == seen@ + frame_ids(shown + here),
                ensures
                    walk(chain, seen@) == here,
                    pairs == frame_pairs(shown + here),
                    views(children@) == leaves(own) + leaves(fresh_pairs(pairs, keys_of(own))),
                    texts(shown_keys@) == keys_of(own) + keys_of(pairs),
                    below@ == seen@ + frame_ids(shown + here),
                decreases match at {
                    Some(l) => l.frames().len(),
                    None => 0,
                },
            {
                let l = match at {
                    None => {
                        break;
                    },
                    Some(l) => l,
                };
                let id = l.id();
                if contains_id(seen, id) {
                    proof {
                        assert(walk(l.frames(), seen@) =~= Seq::<FrameV>::empty());
                        assert(here + walk(l.frames(), seen@) =~= here);
                    }
                    break;
                }
                let ghost f = l.frames()[0];
                let ghost before = pairs;
                let a = l.own_attrs();
                let k_n = a.len();
                let mut k: usize = 0;
                while k < k_n
                    invariant
                        k_n == f.attrs.len(),
                        a@ == f.attrs,
                        0 <= k <= k_n,
                        before == frame_pairs(shown + here),
                        pairs == before + f.attrs.take(k as int),
                        views(children@) == leaves(own) + leaves(fresh_pairs(pairs, keys_of(own))),
                        texts(shown_keys@) == keys_of(own) + keys_of(pairs),
                    decreases k_n - k,
                {
                    let key = a.key_at(k);
                    let ghost p = f.attrs[k as int];
                    let ghost next = pairs.push(p);
                    proof {
                        lemma_key_among(own, pairs, p.0);
                        assert(next.drop_last() =~= pairs);
                        assert(before + f.attrs.take(k + 1) =~= next);
                    }
                    let ghost prev_keys = shown_keys@;
                    if !contains_key(&shown_keys, key) {
                        let value = a.value_at(k).clone();
                        let ghost prev_children = children@;
                        children.push(RenderNode::KVLeaf { key, value });
                        proof {
                            lemma_views_push(prev_children, RenderNode::KVLeaf { key, value });
                            lemma_leaves_push(fresh_pairs(pairs, keys_of(own)), p);
                            assert(fresh_pairs(next, keys_of(own)) == fresh_pairs(pairs, keys_of(own)).push(p));
                            assert(views(children@) =~= leaves(own) + leaves(fresh_pairs(next, keys_of(own))));
                        }
                    } else {
                        proof {
                            assert(fresh_pairs(next, keys_of(own)) == fresh_pairs(pairs, keys_of(own)));
                        }
                    }
                    shown_keys.push(key);
                    proof {
                        lemma_texts_push(prev_keys, key);
                        lemma_leaves_push(pairs, p);
                        assert(texts(shown_keys@) =~= keys_of(own) + keys_of(next));
                        pairs = next;
                    }
                    k = k + 1;
                }
                below.push(id);
                proof {
                    assert(f.attrs.take(k_n as int) =~= f.attrs);
                    let grown = (shown + here).push(f);
                    assert(grown.drop_last() =~= shown + here);
                    assert(pairs == frame_pairs(grown));
                    assert(grown =~= shown + here.push(f));
                    assert(below@ =~= seen@ + frame_ids(shown + here.push(f)));
                    assert(walk(l.frames(), seen@) =~= seq![f] + walk(l.frames().drop_first(), seen@));
                    assert(here + walk(l.frames(), seen@) =~= here.push(f) + walk(l.frames().drop_first(), seen@));
                    if l.frames().len() == 1 {
                        assert(walk(l.frames().drop_first(), seen@) =~= Seq::<FrameV>::empty());
                        assert(here.push(f) + Seq::<FrameV>::empty() =~= here.push(f));
                    }
                    here = here.push(f);
                }
                at = l.parent();
            }
            proof {
                let next = contexts.take(j + 1);
                assert(next.drop_last() =~= contexts.take(j as int));
                assert(next.last() == chain);
                assert(walk_all(next, seen@) == shown + here);
                shown = shown + here;
            }
            j = j + 1;
        }
        proof {
            assert(contexts.take(m as int) =~= contexts);
        }
        let ghost attr_children = children@;
        proof {
            assert(shown == walk_all(contexts, seen@));
        }
        if self.causes.len() > 0 {
            let b = Error::build_branch(&self.causes, &below, "Caused by:");
            let ghost prev = children@;
            children.push(b);
            proof {
                lemma_views_push(prev, b);
            }
        }
        let ghost cause_children = children@;
        if self.incidental.len() > 0 {
            let b = Error::build_branch(&self.incidental, &below, "Incidentally:");
            let ghost prev = children@;
            children.push(b);
            proof {
                lemma_views_push(prev, b);
            }
        }
        let r = RenderBranch { title: self.message.clone(), children };
        proof {
            lemma_branch_view(r);
            let t = render_tree(*self, seen@);
            let causes = if self.causes().len() > 0 {
                seq![NodeV::Branch("Caused by:"@, render_all(self.causes(), below@))]
            } else {
                Seq::empty()
            };
            let incidental = if self.incidental().len() > 0 {
                seq![NodeV::Branch("Incidentally:"@, render_all(self.incidental(), below@))]
            } else {
                Seq::empty()
            };
            assert(views(cause_children) =~= views(attr_children) + causes);
            assert(views(children@) =~= views(attr_children) + causes + incidental);
            assert(t == NodeV::Branch(self.message(), views(attr_children) + causes + incidental));
            assert(views(children@) =~= match t {
                NodeV::Branch(_, c) => c,
                NodeV::Leaf(_, _) => Seq::empty(),
            });
        }
        r
    }
}


/// Whether `e2` is the error `e` with the context chain `c` attached after its
/// own ones.
pub open spec fn with_context(e: Error, c: Seq<FrameV>, e2: Error) -> bool {
    has_parts(e2, e.message(), e.attrs(), e.contexts().push(c), e.causes(), e.incidental())
}

impl Error {
    fn attach(self, log: &Log) -> (r: Error)
        ensures
            with_context(self, log.frames(), r),
    {
        let Error { message, attrs, mut context, causes, incidental } = self;
        context.push(log.clone());
        let r = Error { message, attrs, context, causes, incidental };
        proof {
            assert(r.contexts() =~= self.contexts().push(log.frames()));
        }
        r
    }

    /// The error in one line: the message, then in brackets the attributes and
    /// the branches of causes and incidental errors, each in the same form.
    pub fn to_string(&self) -> (r: String)
        ensures
            r@ == compact(render_tree(*self, Seq::empty())),
    {
        let seen: Vec<usize> = Vec::new();
        let b = self.build_render_nodes(&seen);
        proof {
            assert(seen@ =~= Seq::<usize>::empty());
        }
        compact_text(&b)
    }
}

/// The tree shown when the program stops on the error `e`: that of `e`, with its
/// title led by "Exiting due to error: ".
pub fn fatal_tree(e: &Error) -> (r: RenderBranch)
    ensures
        r@ == match render_tree(*e, Seq::empty()) {
            NodeV::Branch(t, c) => NodeV::Branch("Exiting due to error: "@ + t, c),
            NodeV::Leaf(k, v) => NodeV::Leaf(k, v),
        },
{
    let seen: Vec<usize> = Vec::new();
    let b = e.build_render_nodes(&seen);
    let RenderBranch { title, children } = b;
    let mut t = "Exiting due to error: ".to_string();
    t.append(title.as_str());
    let r = RenderBranch { title: t, children };
    proof {
        lemma_branch_view(b);
        lemma_branch_view(r);
    }
    r
}

impl Log {
    /// The tree to log for the error `e` at `level`, with this context chain
    /// attached to it; `None` when this chain does not emit `level`.
    pub fn log_err(&self, level: Level, e: Error) -> (r: Option<RenderBranch>)
        ensures
            r is None <==> !self.emits(level),
            r is Some ==> exists|e2: Error|
                with_context(e, self.frames(), e2) && r.unwrap()@ == #[trigger] render_tree(e2, Seq::empty()),
    {
        if self.should_log(level).is_none() {
            return None;
        }
        let e2 = e.attach(self);
        let seen: Vec<usize> = Vec::new();
        let b = e2.build_render_nodes(&seen);
        proof {
            assert(seen@ =~= Seq::<usize>::empty());
        }
        Some(b)
    }

    /// The tree to log for `message` at `level`; `None` when this chain does not
    /// emit `level`.
    pub fn log(&self, level: Level, message: &str) -> (r: Option<RenderBranch>)
        ensures
            r is None <==> !self.emits(level),
            r is Some ==> exists|e2: Error|
                has_parts(
                    e2,
                    message@,
                    Seq::empty(),
                    seq![self.frames(), self.frames()],
                    Seq::empty(),
                    Seq::empty(),
                ) && r.unwrap()@ == #[trigger] render_tree(e2, Seq::empty()),
    {
        if self.should_log(level).is_none() {
            return None;
        }
        let e = self.err(message);
        let r = self.log_err(level, e);
        proof {
            let e2 = choose|e2: Error| with_context(e, self.frames(), e2) && r.unwrap()@ == #[trigger] render_tree(e2, Seq::empty());
            assert(e2.contexts() =~= seq![self.frames(), self.frames()]);
        }
        r
    }

    /// The tree to log for `message` with the attributes that `attrs` configures,
    /// at `level`; `None` when this chain does not emit `level`, and then `attrs`
    /// is not called.
    pub fn log_with<F: FnOnce(AttrMap) -> AttrMap>(&self, level: Level, message: &str, attrs: F) -> (r: Option<RenderBranch>)
        requires
            takes_empty(attrs),
        ensures
            r is None <==> !self.emits(level),
            r is Some ==> exists|e2: Error|
                configures(attrs, e2.attrs()) && e2.message() == message@ && e2.contexts() == seq![
                    self.frames(),
                    self.frames(),
                ] && e2.causes().len() == 0 && e2.incidental().len() == 0 && r.unwrap()@
                    == #[trigger] render_tree(e2, Seq::empty()),
    {
        if self.should_log(level).is_none() {
            return None;
        }
        let e = self.err_with(message, attrs);
        let r = self.log_err(level, e);
        proof {
            let e2 = choose|e2: Error| with_context(e, self.frames(), e2) && r.unwrap()@ == #[trigger] render_tree(e2, Seq::empty());
            assert(e2.contexts() =~= seq![self.frames(), self.frames()]);
        }
        r
    }
}


/// Whether the frame with identity `f` has its attributes shown anywhere in the
/// tree that `e` renders into when the frames in `seen` were shown above it.
pub open spec fn shows_frame(e: Error, seen: Seq<usize>, f: usize) -> bool
    decreases e,
{
    let shown = frame_ids(walk_all(e.contexts(), seen));
    let below = seen + shown;
    shown.contains(f) || shows_frame_any(e.causes(), below, f) || shows_frame_any(e.incidental(), below, f)
}

/// Whether the frame with identity `f` is shown in the tree of any of `errs`.
pub open spec fn shows_frame_any(errs: Seq<Error>, seen: Seq<usize>, f: usize) -> bool
    decreases errs,
{
    if errs.len() == 0 {
        false
    } else {
        shows_frame(errs[0], seen, f) || shows_frame_any(errs.drop_first(), seen, f)
    }
}

proof fn lemma_walk_avoids_seen(c: Seq<FrameV>, seen: Seq<usize>, f: usize)
    requires
        seen.contains(f),
    ensures
        !frame_ids(walk(c, seen)).contains(f),
    decreases c.len(),
{
    let w = walk(c, seen);
    if c.len() > 0 && !seen.contains(c[0].id) {
        lemma_walk_avoids_seen(c.drop_first(), seen, f);
        let rest = walk(c.drop_first(), seen);
        assert(frame_ids(w) =~= seq![c[0].id] + frame_ids(rest));
    } else {
        assert(frame_ids(w) =~= Seq::<usize>::empty());
    }
}

proof fn lemma_walk_all_avoids_seen(cs: Seq<Seq<FrameV>>, seen: Seq<usize>, f: usize)
    requires
        seen.contains(f),
    ensures
        !frame_ids(walk_all(cs, seen)).contains(f),
    decreases cs.len(),
{
    if cs.len() > 0 {
        lemma_walk_all_avoids_seen(cs.drop_last(), seen, f);
        lemma_walk_avoids_seen(cs.last(), seen, f);
        assert(frame_ids(walk_all(cs, seen)) =~= frame_ids(walk_all(cs.drop_last(), seen)) + frame_ids(
            walk(cs.last(), seen),
        ));
    } else {
        assert(frame_ids(walk_all(cs, seen)) =~= Seq::<usize>::empty());
    }
}

/// A frame already shown above an error is not shown again anywhere below it.
pub proof fn law_seen_frame_not_shown_again(e: Error, seen: Seq<usize>, f: usize)
    requires
        seen.contains(f),
    ensures
        !shows_frame(e, seen, f),
    decreases e,
{
    let shown = frame_ids(walk_all(e.contexts(), seen));
    let below = seen + shown;
    lemma_walk_all_avoids_seen(e.contexts(), seen, f);
    assert(below.contains(f)) by {
        let i = choose|i: int| 0 <= i < seen.len() && seen[i] == f;
        assert(below[i] == f);
    }
    lemma_seen_frame_not_shown_in_any(e.causes(), below, f);
    lemma_seen_frame_not_shown_in_any(e.incidental(), below, f);
}

proof fn lemma_seen_frame_not_shown_in_any(errs: Seq<Error>, seen: Seq<usize>, f: usize)
    requires
        seen.contains(f),
    ensures
        !shows_frame_any(errs, seen, f),
    decreases errs,
{
    if errs.len() > 0 {
        law_seen_frame_not_shown_again(errs[0], seen, f);
        lemma_seen_frame_not_shown_in_any(errs.drop_first(), seen, f);
    }
}

proof fn lemma_fresh_keys(ps: Seq<AttrV>, shown: Seq<Seq<char>>)
    ensures
        forall|k: Seq<char>| #[trigger] has_key(fresh_pairs(ps, shown), k) ==> has_key(ps, k) && !shown.contains(k),
        keys_unique(fresh_pairs(ps, shown)),
    decreases ps.len(),
{
    if ps.len() > 0 {
        let prev = fresh_pairs(ps.drop_last(), shown);
        lemma_fresh_keys(ps.drop_last(), shown);
        let p = ps.last();
        if !(shown.contains(p.0) || has_key(ps.drop_last(), p.0)) {
            let r = prev.push(p);
            assert forall|i: int, j: int| 0 <= i < r.len() && 0 <= j < r.len() && i != j implies #[trigger] r[i].0
                != #[trigger] r[j].0 by {
                if i == prev.len() as int {
                    assert(prev[j] == r[j]);
                    assert(has_key(prev, r[j].0));
                } else if j == prev.len() as int {
                    assert(prev[i] == r[i]);
                    assert(has_key(prev, r[i].0));
                } else {
                    assert(prev[i] == r[i] && prev[j] == r[j]);
                }
            }
        }
        assert forall|k: Seq<char>| #[trigger] has_key(fresh_pairs(ps, shown), k) implies has_key(ps, k)
            && !shown.contains(k) by {
            let r = fresh_pairs(ps, shown);
            let i = choose|i: int| 0 <= i < r.len() && #[trigger] r[i].0 == k;
            if i < prev.len() {
                assert(has_key(prev, k));
                let j = choose|j: int| 0 <= j < ps.drop_last().len() && #[trigger] ps.drop_last()[j].0 == k;
                assert(ps[j].0 == k);
            } else {
                assert(ps[ps.len() - 1].0 == k);
            }
        }
    }
}

/// An error that shows a frame shows each of that frame's attributes at most
/// once, and none of the errors below it shows the frame again: a frame that two
/// errors of one tree share through their context chains has its attributes
/// printed once in the whole tree, at the highest error that shows it.
pub proof fn law_shared_frame_shown_once(e: Error, seen: Seq<usize>, f: usize)
    requires
        keys_unique(e.attrs()),
        frame_ids(walk_all(e.contexts(), seen)).contains(f),
    ensures
        keys_unique(e.attrs() + fresh_pairs(frame_pairs(walk_all(e.contexts(), seen)), keys_of(e.attrs()))),
        !shows_frame_any(e.causes(), seen + frame_ids(walk_all(e.contexts(), seen)), f),
        !shows_frame_any(e.incidental(), seen + frame_ids(walk_all(e.contexts(), seen)), f),
{
    let shown = frame_ids(walk_all(e.contexts(), seen));
    let below = seen + shown;
    assert(below.contains(f)) by {
        let i = choose|i: int| 0 <= i < shown.len() && shown[i] == f;
        assert(below[seen.len() + i] == f);
    }
    lemma_seen_frame_not_shown_in_any(e.causes(), below, f);
    lemma_seen_frame_not_shown_in_any(e.incidental(), below, f);
    let own = e.attrs();
    let fresh = fresh_pairs(frame_pairs(walk_all(e.contexts(), seen)), keys_of(own));
    lemma_fresh_keys(frame_pairs(walk_all(e.contexts(), seen)), keys_of(own));
    let all = own + fresh;
    assert forall|i: int, j: int| 0 <= i < all.len() && 0 <= j < all.len() && i != j implies #[trigger] all[i].0
        != #[trigger] all[j].0 by {
        if i < own.len() && j >= own.len() {
            assert(has_key(fresh, all[j].0));
            assert(keys_of(own)[i] == all[i].0);
        } else if j < own.len() && i >= own.len() {
            assert(has_key(fresh, all[i].0));
            assert(keys_of(own)[j] == all[j].0);
        } else if i >= own.len() && j >= own.len() {
            assert(fresh[i - own.len()] == all[i]);
            assert(fresh[j - own.len()] == all[j]);
        }
    }
}

} // verus!
