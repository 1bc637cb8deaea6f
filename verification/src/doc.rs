//! The document model and the operation model: runs, groups, insert and
//! delete instructions, together with their ghost views.
//!
//! Text is counted and split at character granularity, so a run holds its
//! characters directly; a style set is a bit set, one bit per style
//! attribute; a group's attributes are an ordered list of key/value pairs.

use vstd::prelude::*;

verus! {

/// Attributes of a group node: an ordered list of key/value pairs,
/// standing for an attribute map.
pub type Attrs = Vec<(u64, u64)>;

/// The map invariant of an attribute list: each key appears at most
/// once.  The engines never read or build attribute lists — they copy
/// them through unchanged — so every list in their output comes from the
/// document or the operation given.
pub open spec fn attrs_wf(a: Seq<(u64, u64)>) -> bool {
    forall|i: int, j: int| 0 <= i < j < a.len() ==> (#[trigger] a[i]).0 != (#[trigger] a[j]).0
}

/// One node of a document span.
#[derive(Debug, PartialEq, Eq)]
pub enum DocNode {
    /// An atomic span of characters carrying a set of active styles.
    Run(Vec<char>, u64),
    /// A structural container holding attributes and an ordered child span.
    Group(Attrs, Vec<DocNode>),
}

/// One instruction of an insertion program.
#[derive(Debug, PartialEq, Eq)]
pub enum AddElement {
    /// Retain the next `count` document units unchanged.
    AddSkip(usize),
    /// Insert literal text, style-less, consuming no document unit.
    AddChars(Vec<char>),
    /// Union the style set into the next `count` character units.
    AddStyles(usize, u64),
    /// Recurse into the next document unit, which must be a group.
    AddWithGroup(Vec<AddElement>),
    /// Wrap content produced by the nested program into a brand-new group.
    AddGroup(Attrs, Vec<AddElement>),
}

/// One instruction of a deletion program.
#[derive(Debug, PartialEq, Eq)]
pub enum DelElement {
    /// Retain the next `count` document units unchanged.
    DelSkip(usize),
    /// Remove the next `count` characters, producing no output.
    DelChars(usize),
    /// Subtract the style set from the next `count` character units.
    DelStyles(usize, u64),
    /// Recurse into the next document unit, which must be a group.
    DelWithGroup(Vec<DelElement>),
    /// Recurse into a group's children, then splice them into the parent,
    /// discarding the group wrapper itself.
    DelGroup(Vec<DelElement>),
}

/// An operation: the deletion program, applied first, and the insertion
/// program, applied to the intermediate document.
pub type Op = (Vec<DelElement>, Vec<AddElement>);

/// The single fatal error: an operation's addressing is inconsistent with
/// the document it targets.
#[derive(Clone, Copy, Debug, PartialEq, Eq, Structural)]
pub struct MalformedOperation;

/// Ghost view of a document node.
pub enum DocNodeV {
    Run(Seq<char>, u64),
    Group(Seq<(u64, u64)>, Seq<DocNodeV>),
}

/// Ghost view of an insert instruction.
pub enum AddV {
    AddSkip(nat),
    AddChars(Seq<char>),
    AddStyles(nat, u64),
    AddWithGroup(Seq<AddV>),
    AddGroup(Seq<(u64, u64)>, Seq<AddV>),
}

/// Ghost view of a delete instruction.
pub enum DelV {
    DelSkip(nat),
    DelChars(nat),
    DelStyles(nat, u64),
    DelWithGroup(Seq<DelV>),
    DelGroup(Seq<DelV>),
}

impl DocNode {
    /// The ghost view of this node.
    pub open spec fn dv(self) -> DocNodeV
        decreases self,
    {
        match self {
            DocNode::Run(text, styles) => DocNodeV::Run(text@, styles),
            DocNode::Group(attrs, children) => DocNodeV::Group(attrs@, span_dv(children@)),
        }
    }
}

/// The ghost view of a span of document nodes.
pub open spec fn span_dv(s: Seq<DocNode>) -> Seq<DocNodeV>
    decreases s,
{
    if s.len() == 0 {
        Seq::empty()
    } else {
        seq![s[0].dv()] + span_dv(s.skip(1))
    }
}

impl AddElement {
    /// The ghost view of this insert instruction.
    pub open spec fn dv(self) -> AddV
        decreases self,
    {
        match self {
            AddElement::AddSkip(n) => AddV::AddSkip(n as nat),
            AddElement::AddChars(text) => AddV::AddChars(text@),
            AddElement::AddStyles(n, styles) => AddV::AddStyles(n as nat, styles),
            AddElement::AddWithGroup(ins) => AddV::AddWithGroup(add_dv(ins@)),
            AddElement::AddGroup(attrs, ins) => AddV::AddGroup(attrs@, add_dv(ins@)),
        }
    }
}

/// The ghost view of an insertion program.
pub open spec fn add_dv(s: Seq<AddElement>) -> Seq<AddV>
    decreases s,
{
    if s.len() == 0 {
        Seq::empty()
    } else {
        seq![s[0].dv()] + add_dv(s.skip(1))
    }
}

impl DelElement {
    /// The ghost view of this delete instruction.
    pub open spec fn dv(self) -> DelV
        decreases self,
    {
        match self {
            DelElement::DelSkip(n) => DelV::DelSkip(n as nat),
            DelElement::DelChars(n) => DelV::DelChars(n as nat),
            DelElement::DelStyles(n, styles) => DelV::DelStyles(n as nat, styles),
            DelElement::DelWithGroup(del) => DelV::DelWithGroup(del_dv(del@)),
            DelElement::DelGroup(del) => DelV::DelGroup(del_dv(del@)),
        }
    }
}

/// The ghost view of a deletion program.
pub open spec fn del_dv(s: Seq<DelElement>) -> Seq<DelV>
    decreases s,
{
    if s.len() == 0 {
        Seq::empty()
    } else {
        seq![s[0].dv()] + del_dv(s.skip(1))
    }
}

/// A span's view has one entry per node, each the node's own view.
pub proof fn lemma_span_dv_index(s: Seq<DocNode>)
    ensures
        span_dv(s).len() == s.len(),
        forall|i: int| 0 <= i < s.len() ==> span_dv(s)[i] == #[trigger] s[i].dv(),
    decreases s,
{
    if s.len() > 0 {
        lemma_span_dv_index(s.skip(1));
        assert forall|i: int| 0 <= i < s.len() implies span_dv(s)[i] == #[trigger] s[i].dv() by {
            if i > 0 {
                assert(s.skip(1)[i - 1] == s[i]);
            }
        }
    }
}

/// An insertion program's view has one entry per instruction.
pub proof fn lemma_add_dv_index(s: Seq<AddElement>)
    ensures
        add_dv(s).len() == s.len(),
        forall|i: int| 0 <= i < s.len() ==> add_dv(s)[i] == #[trigger] s[i].dv(),
    decreases s,
{
    if s.len() > 0 {
        lemma_add_dv_index(s.skip(1));
        assert forall|i: int| 0 <= i < s.len() implies add_dv(s)[i] == #[trigger] s[i].dv() by {
            if i > 0 {
                assert(s.skip(1)[i - 1] == s[i]);
            }
        }
    }
}

/// A deletion program's view has one entry per instruction.
pub proof fn lemma_del_dv_index(s: Seq<DelElement>)
    ensures
        del_dv(s).len() == s.len(),
        forall|i: int| 0 <= i < s.len() ==> del_dv(s)[i] == #[trigger] s[i].dv(),
    decreases s,
{
    if s.len() > 0 {
        lemma_del_dv_index(s.skip(1));
        assert forall|i: int| 0 <= i < s.len() implies del_dv(s)[i] == #[trigger] s[i].dv() by {
            if i > 0 {
                assert(s.skip(1)[i - 1] == s[i]);
            }
        }
    }
}

/// The view of a span commutes with concatenation.
pub proof fn lemma_span_dv_concat(a: Seq<DocNode>, b: Seq<DocNode>)
    ensures
        span_dv(a + b) == span_dv(a) + span_dv(b),
{
    lemma_span_dv_index(a);
    lemma_span_dv_index(b);
    lemma_span_dv_index(a + b);
    assert forall|i: int| 0 <= i < a.len() + b.len() implies span_dv(a + b)[i] == (span_dv(a)
        + span_dv(b))[i] by {
        assert(span_dv(a + b)[i] == (a + b)[i].dv());
        if i < a.len() {
            assert((a + b)[i] == a[i]);
            assert(span_dv(a)[i] == a[i].dv());
        } else {
            assert((a + b)[i] == b[i - a.len()]);
            assert(span_dv(b)[i - a.len()] == b[i - a.len()].dv());
        }
    }
    assert(span_dv(a + b) =~= span_dv(a) + span_dv(b));
}

/// The view of a single-node span.
pub proof fn lemma_span_dv_one(x: DocNode)
    ensures
        span_dv(seq![x]) == seq![x.dv()],
{
    assert(seq![x].skip(1) =~= Seq::<DocNode>::empty());
    assert(seq![x][0] == x);
    assert(span_dv(Seq::<DocNode>::empty()) == Seq::<DocNodeV>::empty());
    assert(span_dv(seq![x]) =~= seq![x.dv()]);
}

/// Copies a list of attributes.
pub fn copy_attrs(a: &Attrs) -> (r: Attrs)
    ensures
        r@ == a@,
{
    let mut r: Attrs = Vec::new();
    let mut i: usize = 0;
    while i < a.len()
        invariant
            i <= a@.len(),
            r@ == a@.take(i as int),
        decreases a@.len() - i,
    {
        r.push(a[i]);
        i = i + 1;
        proof {
            assert(r@ =~= a@.take(i as int));
        }
    }
    proof {
        assert(a@.take(a@.len() as int) =~= a@);
    }
    r
}

/// Copies a run's text.
pub fn copy_chars(t: &Vec<char>) -> (r: Vec<char>)
    ensures
        r@ == t@,
{
    let mut r: Vec<char> = Vec::new();
    let mut i: usize = 0;
    while i < t.len()
        invariant
            i <= t@.len(),
            r@ == t@.take(i as int),
        decreases t@.len() - i,
    {
        r.push(t[i]);
        i = i + 1;
        proof {
            assert(r@ =~= t@.take(i as int));
        }
    }
    proof {
        assert(t@.take(t@.len() as int) =~= t@);
    }
    r
}

/// Splits a run's text at a character offset.
pub fn split_chars(t: &Vec<char>, n: usize) -> (r: (Vec<char>, Vec<char>))
    requires
        n <= t@.len(),
    ensures
        r.0@ == t@.take(n as int),
        r.1@ == t@.skip(n as int),
{
    let mut left: Vec<char> = Vec::new();
    let mut i: usize = 0;
    while i < n
        invariant
            i <= n <= t@.len(),
            left@ == t@.take(i as int),
        decreases n - i,
    {
        left.push(t[i]);
        i = i + 1;
        proof {
            assert(left@ =~= t@.take(i as int));
        }
    }
    let mut right: Vec<char> = Vec::new();
    let mut j: usize = n;
    while j < t.len()
        invariant
            n <= j <= t@.len(),
            right@ == t@.subrange(n as int, j as int),
        decreases t@.len() - j,
    {
        right.push(t[j]);
        j = j + 1;
        proof {
            assert(right@ =~= t@.subrange(n as int, j as int));
        }
    }
    proof {
        assert(right@ =~= t@.skip(n as int));
    }
    (left, right)
}

/// Copies one document node.
pub fn copy_node(n: &DocNode) -> (r: DocNode)
    ensures
        r.dv() == n.dv(),
    decreases *n,
{
    match n {
        DocNode::Run(text, styles) => DocNode::Run(copy_chars(text), *styles),
        DocNode::Group(attrs, children) => {
            let ch = copy_span_from(children, 0);
            proof {
                assert(span_dv(children@).skip(0) =~= span_dv(children@));
            }
            DocNode::Group(copy_attrs(attrs), ch)
        },
    }
}

/// Copies the tail of a span, starting at the given node index.
pub fn copy_span_from(s: &Vec<DocNode>, from: usize) -> (r: Vec<DocNode>)
    requires
        from <= s@.len(),
    ensures
        span_dv(r@) == span_dv(s@).skip(from as int),
    decreases *s,
{
    let mut r: Vec<DocNode> = Vec::new();
    let mut i: usize = from;
    proof {
        lemma_span_dv_index(s@);
    }
    while i < s.len()
        invariant
            from <= i <= s@.len(),
            span_dv(s@).len() == s@.len(),
            forall|j: int| 0 <= j < s@.len() ==> span_dv(s@)[j] == #[trigger] s@[j].dv(),
            r@.len() == i - from,
            forall|j: int| 0 <= j < r@.len() ==> #[trigger] r@[j].dv() == s@[from + j].dv(),
        decreases s@.len() - i,
    {
        let node = copy_node(&s[i]);
        r.push(node);
        i = i + 1;
    }
    proof {
        lemma_span_dv_index(r@);
        assert forall|j: int| 0 <= j < r@.len() implies span_dv(r@)[j] == span_dv(s@).skip(
            from as int,
        )[j] by {
            assert(span_dv(r@)[j] == r@[j].dv());
            assert(span_dv(s@)[from + j] == s@[from + j].dv());
        }
        assert(span_dv(r@) =~= span_dv(s@).skip(from as int));
    }
    r
}

} // verus!
