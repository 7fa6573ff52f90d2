use vstd::prelude::*;
use vstd::string::StringExecFns;
use crate::render::{lemma_branch_view, views, NodeV, RenderBranch, RenderNode};

verus! {

/// The lines that `textwrap::wrap` breaks `text` into for a line width of `width`,
/// with `first` before the first line and `rest` before each later one.
pub uninterp spec fn wrapped(text: Seq<char>, first: Seq<char>, rest: Seq<char>, width: usize) -> Seq<Seq<char>>;

/// The number of columns that `console::measure_text_width` gives for `s`.
pub uninterp spec fn text_width(s: Seq<char>) -> nat;

/// Relies on `textwrap::wrap` with `Options::new(width)` and the two indents:
/// the lines it gives depend on its arguments alone.
#[verifier::external_body]
fn wrap_text(text: &str, first: &str, rest: &str, width: usize) -> (r: Vec<String>)
    ensures
        r@.map_values(|l: String| l@) == wrapped(text@, first@, rest@, width),
{
    let options = textwrap::Options::new(width).initial_indent(first).subsequent_indent(rest);
    textwrap::wrap(text, options).into_iter().map(|l| l.into_owned()).collect()
}

/// Relies on `console::measure_text_width`: the width depends on the text alone.
#[verifier::external_body]
fn measure_width(s: &str) -> (r: usize)
    ensures
        r == text_width(s@),
{
    console::measure_text_width(s)
}

/// What a line of output shows: the title of a branch or a key and its value.
#[derive(PartialEq, Eq, Clone, Copy, Debug, Structural)]
pub enum LineKind {
    Title,
    Attr,
}

/// One line of output.
#[derive(Debug)]
pub struct Line {
    pub kind: LineKind,
    pub text: String,
}

/// The kind and text of each line.
pub open spec fn lines_view(ls: Seq<Line>) -> Seq<(LineKind, Seq<char>)> {
    ls.map_values(|l: Line| (l.kind, l.text@))
}

/// `n` spaces.
pub open spec fn spaces(n: nat) -> Seq<char> {
    Seq::new(n, |i: int| ' ')
}

/// The lines of kind `kind` with the texts `ts`.
pub open spec fn tagged(kind: LineKind, ts: Seq<Seq<char>>) -> Seq<(LineKind, Seq<char>)> {
    ts.map_values(|t: Seq<char>| (kind, t))
}

/// The lines of the node `n` indented by `indent`: a key/value pair is
/// `- key = value`, wrapped so that later lines line up under the value; a branch is
/// its wrapped title followed by its children, indented two spaces more.
pub open spec fn node_lines(n: NodeV, indent: Seq<char>, width: usize) -> Seq<(LineKind, Seq<char>)>
    decreases n,
{
    match n {
        NodeV::Leaf(k, v) => {
            let label = "- "@ + k + " = "@;
            tagged(LineKind::Attr, wrapped(v, indent + label, indent + spaces(text_width(label)), width))
        },
        NodeV::Branch(t, cs) => tagged(LineKind::Title, wrapped(t, indent, indent, width)) + nodes_lines(
            cs,
            indent + "  "@,
            width,
        ),
    }
}

/// The lines of the nodes `ns` one after the other, each indented by `indent`.
pub open spec fn nodes_lines(ns: Seq<NodeV>, indent: Seq<char>, width: usize) -> Seq<(LineKind, Seq<char>)>
    decreases ns,
{
    if ns.len() == 0 {
        Seq::empty()
    } else {
        node_lines(ns[0], indent, width) + nodes_lines(ns.drop_first(), indent, width)
    }
}

/// The lines of the entries of a stack of work, the last entry first.
pub open spec fn stack_lines(st: Seq<(Seq<char>, NodeV)>, width: usize) -> Seq<(LineKind, Seq<char>)>
    decreases st.len(),
{
    if st.len() == 0 {
        Seq::empty()
    } else {
        node_lines(st.last().1, st.last().0, width) + stack_lines(st.drop_last(), width)
    }
}

/// The number of nodes in the tree `n`.
pub open spec fn size(n: NodeV) -> nat
    decreases n,
{
    match n {
        NodeV::Leaf(_, _) => 1,
        NodeV::Branch(_, cs) => 1 + sizes(cs),
    }
}

/// The number of nodes in the trees `ns`.
pub open spec fn sizes(ns: Seq<NodeV>) -> nat
    decreases ns,
{
    if ns.len() == 0 {
        0
    } else {
        size(ns[0]) + sizes(ns.drop_first())
    }
}

/// The number of nodes in the trees of a stack of work.
pub open spec fn stack_size(st: Seq<(Seq<char>, NodeV)>) -> nat
    decreases st.len(),
{
    if st.len() == 0 {
        0
    } else {
        size(st.last().1) + stack_size(st.drop_last())
    }
}

/// The entries of the stack as text and node views.
pub open spec fn stack_view(st: Seq<(String, &RenderNode)>) -> Seq<(Seq<char>, NodeV)> {
    st.map_values(|e: (String, &RenderNode)| (e.0@, e.1@))
}

/// Adds a line of kind `kind` for each text of `ts` to `out`.
fn push_lines(out: &mut Vec<Line>, kind: LineKind, ts: Vec<String>)
    ensures
        lines_view(final(out)@) == lines_view(old(out)@) + tagged(kind, ts@.map_values(|l: String| l@)),
{
    let ghost start = lines_view(out@);
    let ghost texts = ts@.map_values(|l: String| l@);
    let n = ts.len();
    let mut i: usize = 0;
    while i < n
        invariant
            0 <= i <= n,
            n == ts@.len(),
            texts == ts@.map_values(|l: String| l@),
            lines_view(out@) == start + tagged(kind, texts.take(i as int)),
        decreases n - i,
    {
        let t = ts[i].clone();
        let ghost before = out@;
        out.push(Line { kind, text: t });
        proof {
            assert(texts.take(i + 1) =~= texts.take(i as int).push(t@));
            assert(lines_view(out@) =~= lines_view(before).push((kind, t@)));
            assert(tagged(kind, texts.take(i + 1)) =~= tagged(kind, texts.take(i as int)).push((kind, t@)));
        }
        i = i + 1;
    }
    proof {
        assert(texts.take(n as int) =~= texts);
    }
}

/// `n` spaces.
fn make_spaces(n: usize) -> (r: String)
    ensures
        r@ == spaces(n as nat),
{
    let mut r = String::new();
    let mut i: usize = 0;
    while i < n
        invariant
            0 <= i <= n,
            r@ == spaces(i as nat),
        decreases n - i,
    {
        r.append(" ");
        proof {
            reveal_strlit(" ");
            assert(r@ =~= spaces((i + 1) as nat));
        }
        i = i + 1;
    }
    r
}

proof fn lemma_stack_push(st: Seq<(Seq<char>, NodeV)>, e: (Seq<char>, NodeV), width: usize)
    ensures
        stack_lines(st.push(e), width) == node_lines(e.1, e.0, width) + stack_lines(st, width),
        stack_size(st.push(e)) == size(e.1) + stack_size(st),
{
    assert(st.push(e).drop_last() =~= st);
}

/// The output lines of the children of `node`, depth first, for a line width of
/// `width`. The title of `node` itself is left to the caller.
pub fn layout(node: &RenderBranch, width: usize) -> (r: Vec<Line>)
    ensures
        lines_view(r@) == nodes_lines(views(node.children@), Seq::empty(), width),
{
    let mut out: Vec<Line> = Vec::new();
    let mut stack: Vec<(String, &RenderNode)> = Vec::new();
    let cs = &node.children;
    let mut i = cs.len();
    proof {
        assert(views(cs@).subrange(i as int, cs@.len() as int) =~= Seq::<NodeV>::empty());
    }
    while i > 0
        invariant
            0 <= i <= cs@.len(),
            stack_lines(stack_view(stack@), width) == nodes_lines(
                views(cs@).subrange(i as int, cs@.len() as int),
                Seq::empty(),
                width,
            ),
        decreases i,
    {
        let ghost before = stack_view(stack@);
        stack.push((String::new(), &cs[i - 1]));
        proof {
            let sub = views(cs@).subrange(i - 1, cs@.len() as int);
            assert(sub.drop_first() =~= views(cs@).subrange(i as int, cs@.len() as int));
            assert(stack_view(stack@) =~= before.push((Seq::<char>::empty(), cs@[i - 1]@)));
            lemma_stack_push(before, (Seq::<char>::empty(), cs@[i - 1]@), width);
        }
        i = i - 1;
    }
    proof {
        assert(views(cs@).subrange(0, cs@.len() as int) =~= views(cs@));
        assert(lines_view(out@) =~= Seq::<(LineKind, Seq<char>)>::empty());
    }
    while stack.len() > 0
        invariant
            lines_view(out@) + stack_lines(stack_view(stack@), width) == nodes_lines(
                views(cs@),
                Seq::empty(),
                width,
            ),
        decreases stack_size(stack_view(stack@)),
    {
        let ghost st = stack_view(stack@);
        let (indent, top) = stack.pop().unwrap();
        proof {
            assert(stack_view(stack@) =~= st.drop_last());
            assert(stack_size(st) == size(top@) + stack_size(st.drop_last()));
        }
        match top {
            RenderNode::KVLeaf { key, value } => {
                let mut label = "- ".to_string();
                label.append(key);
                label.append(" = ");
                let mut first = indent.clone();
                first.append(label.as_str());
                let pad = make_spaces(measure_width(label.as_str()));
                let mut rest = indent;
                rest.append(pad.as_str());
                let ls = wrap_text(value.as_str(), first.as_str(), rest.as_str(), width);
                let ghost before = lines_view(out@);
                push_lines(&mut out, LineKind::Attr, ls);
                proof {
                    assert(label@ =~= "- "@ + key@ + " = "@);
                }
            },
            RenderNode::Branch(b) => {
                let ls = wrap_text(b.title.as_str(), indent.as_str(), indent.as_str(), width);
                push_lines(&mut out, LineKind::Title, ls);
                let mut inner = indent;
                inner.append("  ");
                let ghost rest_st = stack_view(stack@);
                let kids = &b.children;
                let mut k = kids.len();
                proof {
                    lemma_branch_view(*b);
                    assert(views(kids@).subrange(k as int, kids@.len() as int) =~= Seq::<NodeV>::empty());
                    assert(nodes_lines(Seq::<NodeV>::empty(), inner@, width) =~= Seq::<(LineKind, Seq<char>)>::empty());
                }
                while k > 0
                    invariant
                        0 <= k <= kids@.len(),
                        stack_lines(stack_view(stack@), width) == nodes_lines(
                            views(kids@).subrange(k as int, kids@.len() as int),
                            inner@,
                            width,
                        ) + stack_lines(rest_st, width),
                        stack_size(stack_view(stack@)) == sizes(views(kids@).subrange(k as int, kids@.len() as int)) + stack_size(rest_st),
                    decreases k,
                {
                    let ghost before = stack_view(stack@);
                    stack.push((inner.clone(), &kids[k - 1]));
                    proof {
                        let sub = views(kids@).subrange(k - 1, kids@.len() as int);
                        assert(sub.drop_first() =~= views(kids@).subrange(k as int, kids@.len() as int));
                        assert(stack_view(stack@) =~= before.push((inner@, kids@[k - 1]@)));
                        lemma_stack_push(before, (inner@, kids@[k - 1]@), width);
                    }
                    k = k - 1;
                }
                proof {
                    assert(views(kids@).subrange(0, kids@.len() as int) =~= views(kids@));
                    assert(stack_size(st) == size(top@) + stack_size(rest_st));
                }
            },
        }
    }
    out
}

/// What goes before an element of a list in the one-line form: a space, and a
/// comma before every element but the first.
pub open spec fn separator(first: bool) -> Seq<char> {
    if first {
        " "@
    } else {
        ", "@
    }
}

/// The one-line form of a tree: a pair is `key = value`; a branch is its title
/// followed by its children in brackets, `title [ a = 1, b = 2 ]`.
pub open spec fn compact(n: NodeV) -> Seq<char>
    decreases n,
{
    match n {
        NodeV::Leaf(k, v) => k + " = "@ + v,
        NodeV::Branch(t, cs) => t + " ["@ + compact_list(cs, true) + " ]"@,
    }
}

/// The one-line forms of the trees `ns`, each after its separator.
pub open spec fn compact_list(ns: Seq<NodeV>, first: bool) -> Seq<char>
    decreases ns,
{
    if ns.len() == 0 {
        Seq::empty()
    } else {
        separator(first) + compact(ns[0]) + compact_list(ns.drop_first(), false)
    }
}

/// A step of work while writing the one-line form: a node with its separator, or
/// the closing of a branch.
pub enum Step<'a> {
    Node(bool, &'a RenderNode),
    Close,
}

/// The text that a step stands for.
pub open spec fn step_text(s: Step) -> Seq<char> {
    match s {
        Step::Node(first, n) => separator(first) + compact(n@),
        Step::Close => " ]"@,
    }
}

/// How much work a step holds.
pub open spec fn step_size(s: Step) -> nat {
    match s {
        Step::Node(_, n) => 2 * size(n@),
        Step::Close => 1,
    }
}

/// The text that the steps of a stack stand for, the last step first.
pub open spec fn steps_text(st: Seq<Step>) -> Seq<char>
    decreases st.len(),
{
    if st.len() == 0 {
        Seq::empty()
    } else {
        step_text(st.last()) + steps_text(st.drop_last())
    }
}

/// How much work the steps of a stack still hold.
pub open spec fn steps_size(st: Seq<Step>) -> nat
    decreases st.len(),
{
    if st.len() == 0 {
        0
    } else {
        step_size(st.last()) + steps_size(st.drop_last())
    }
}

proof fn lemma_steps_push(st: Seq<Step>, s: Step)
    ensures
        steps_text(st.push(s)) == step_text(s) + steps_text(st),
        steps_size(st.push(s)) == step_size(s) + steps_size(st),
{
    assert(st.push(s).drop_last() =~= st);
}

/// Pushes the steps for the children `kids` of a branch, so that the first child
/// comes off the stack first.
fn push_children<'a>(stack: &mut Vec<Step<'a>>, kids: &'a Vec<RenderNode>)
    ensures
        steps_text(final(stack)@) == compact_list(views(kids@), true) + steps_text(old(stack)@),
        steps_size(final(stack)@) == 2 * sizes(views(kids@)) + steps_size(old(stack)@),
{
    let ghost start = stack@;
    let mut k = kids.len();
    proof {
        assert(views(kids@).subrange(k as int, kids@.len() as int) =~= Seq::<NodeV>::empty());
    }
    while k > 0
        invariant
            0 <= k <= kids@.len(),
            steps_text(stack@) == compact_list(views(kids@).subrange(k as int, kids@.len() as int), k == 0)
                + steps_text(start),
            steps_size(stack@) == 2 * sizes(views(kids@).subrange(k as int, kids@.len() as int))
                + steps_size(start),
        decreases k,
    {
        let ghost before = stack@;
        let first = k == 1;
        stack.push(Step::Node(first, &kids[k - 1]));
        proof {
            let sub = views(kids@).subrange(k - 1, kids@.len() as int);
            assert(sub.drop_first() =~= views(kids@).subrange(k as int, kids@.len() as int));
            assert(sub[0] == kids@[k - 1]@);
            lemma_steps_push(before, Step::Node(first, &kids@[k - 1]));
        }
        k = k - 1;
    }
    proof {
        assert(views(kids@).subrange(0, kids@.len() as int) =~= views(kids@));
    }
}

/// Writes what `step` stands for to `out`, pushing the steps of a branch's
/// children and its closing.
fn write_step<'a>(out: &mut String, stack: &mut Vec<Step<'a>>, step: Step<'a>)
    ensures
        final(out)@ + steps_text(final(stack)@) == old(out)@ + step_text(step) + steps_text(old(stack)@),
        steps_size(final(stack)@) < step_size(step) + steps_size(old(stack)@),
{
    let ghost before = out@;
    let ghost rest = stack@;
    match step {
        Step::Close => {
            out.append(" ]");
        },
        Step::Node(first, n) => {
            if first {
                out.append(" ");
            } else {
                out.append(", ");
            }
            match n {
                RenderNode::KVLeaf { key, value } => {
                    out.append(key);
                    out.append(" = ");
                    out.append(value.as_str());
                    proof {
                        assert(out@ =~= before + separator(first) + compact(n@));
                    }
                },
                RenderNode::Branch(b) => {
                    proof {
                        lemma_branch_view(*b);
                    }
                    out.append(b.title.as_str());
                    out.append(" [");
                    stack.push(Step::Close);
                    proof {
                        lemma_steps_push(rest, Step::Close);
                    }
                    push_children(stack, &b.children);
                    proof {
                        assert(out@ + steps_text(stack@) =~= before + separator(first) + compact(n@) + steps_text(rest));
                    }
                },
            }
        },
    }
}

/// The one-line form of the tree `node`.
pub fn compact_text(node: &RenderBranch) -> (r: String)
    ensures
        r@ == compact(node@),
{
    proof {
        lemma_branch_view(*node);
        reveal_strlit(" [");
    }
    let mut out = node.title.clone();
    out.append(" [");
    let mut stack: Vec<Step> = Vec::new();
    stack.push(Step::Close);
    proof {
        lemma_steps_push(Seq::empty(), Step::Close);
        assert(steps_text(Seq::<Step>::empty()) =~= Seq::<char>::empty());
    }
    push_children(&mut stack, &node.children);
    proof {
        assert(out@ + steps_text(stack@) =~= compact(node@));
    }
    while stack.len() > 0
        invariant
            out@ + steps_text(stack@) == compact(node@),
        decreases steps_size(stack@),
    {
        let ghost st = stack@;
        let step = stack.pop().unwrap();
        proof {
            assert(stack@ =~= st.drop_last());
            lemma_steps_push(stack@, step);
            assert(stack@.push(step) =~= st);
        }
        write_step(&mut out, &mut stack, step);
    }
    proof {
        assert(out@ + Seq::<char>::empty() =~= out@);
    }
    out
}

} // verus!
