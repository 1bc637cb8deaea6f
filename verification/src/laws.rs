//! Laws the engines obey, stated over the ghost semantics and proved once
//! for every document and every operation.

use vstd::prelude::*;
use crate::doc::AddV;
use crate::doc::DelV;
use crate::doc::DocNodeV;
use crate::trace::BytecodeV;
use crate::sem::apply_add_outer_s;
use crate::sem::apply_add_s;
use crate::sem::apply_del_s;
use crate::sem::apply_op_s;
use crate::sem::del_chars_s;
use crate::sem::skip_units_s;
use crate::sem::style_units_s;

verus! {

/// The number of characters a node holds, groups counted recursively.
pub open spec fn node_chars(n: DocNodeV) -> nat
    decreases n,
{
    match n {
        DocNodeV::Run(text, _styles) => text.len(),
        DocNodeV::Group(_attrs, children) => span_chars(children),
    }
}

/// The number of characters a span holds.
pub open spec fn span_chars(s: Seq<DocNodeV>) -> nat
    decreases s,
{
    if s.len() == 0 {
        0
    } else {
        node_chars(s[0]) + span_chars(s.skip(1))
    }
}

/// The number of characters a delete instruction removes, nested
/// programs counted recursively.
pub open spec fn del_elem_chars(d: DelV) -> nat
    decreases d,
{
    match d {
        DelV::DelChars(n) => n,
        DelV::DelWithGroup(ds) => del_chars_total(ds),
        DelV::DelGroup(ds) => del_chars_total(ds),
        _ => 0,
    }
}

/// The number of characters a deletion program removes.
pub open spec fn del_chars_total(del: Seq<DelV>) -> nat
    decreases del,
{
    if del.len() == 0 {
        0
    } else {
        del_elem_chars(del[0]) + del_chars_total(del.skip(1))
    }
}

/// The number of characters an insert instruction introduces, nested
/// programs counted recursively.
pub open spec fn add_elem_chars(a: AddV) -> nat
    decreases a,
{
    match a {
        AddV::AddChars(text) => text.len(),
        AddV::AddWithGroup(ins) => add_chars_total(ins),
        AddV::AddGroup(_attrs, ins) => add_chars_total(ins),
        _ => 0,
    }
}

/// The number of characters an insertion program introduces.
pub open spec fn add_chars_total(add: Seq<AddV>) -> nat
    decreases add,
{
    if add.len() == 0 {
        0
    } else {
        add_elem_chars(add[0]) + add_chars_total(add.skip(1))
    }
}

/// The character count of a single-node span.
pub proof fn lemma_span_chars_one(x: DocNodeV)
    ensures
        span_chars(seq![x]) == node_chars(x),
{
    assert(seq![x].skip(1) =~= Seq::<DocNodeV>::empty());
    assert(seq![x][0] == x);
    assert(span_chars(Seq::<DocNodeV>::empty()) == 0);
}

/// Character counting distributes over concatenation of spans.
pub proof fn lemma_span_chars_concat(a: Seq<DocNodeV>, b: Seq<DocNodeV>)
    ensures
        span_chars(a + b) == span_chars(a) + span_chars(b),
    decreases a,
{
    if a.len() == 0 {
        assert(a + b =~= b);
    } else {
        assert((a + b)[0] == a[0]);
        assert((a + b).skip(1) =~= a.skip(1) + b);
        lemma_span_chars_concat(a.skip(1), b);
    }
}

/// Retaining units conserves characters: what was retained plus what
/// remains carries every character of the span.
pub proof fn lemma_skip_units_chars(span: Seq<DocNodeV>, n: nat)
    requires
        skip_units_s(span, n) is Some,
    ensures
        ({
            let q = skip_units_s(span, n)->Some_0;
            span_chars(q.0) + span_chars(q.1) == span_chars(span)
        }),
    decreases span,
{
    if n == 0 {
        assert(span_chars(Seq::<DocNodeV>::empty()) == 0);
    } else {
        match span[0] {
            DocNodeV::Run(text, styles) => {
            assert(node_chars(span[0]) == text.len());
            assert(span_chars(span) == node_chars(span[0]) + span_chars(span.skip(1)));
            if text.len() < n {
                lemma_skip_units_chars(span.skip(1), (n - text.len()) as nat);
                let sub = skip_units_s(span.skip(1), (n - text.len()) as nat)->Some_0;
                lemma_span_chars_concat(seq![DocNodeV::Run(text, styles)], sub.0);
                lemma_span_chars_one(DocNodeV::Run(text, styles));
            } else if text.len() > n {
                lemma_span_chars_one(DocNodeV::Run(text.take(n as int), styles));
                lemma_span_chars_concat(
                    seq![DocNodeV::Run(text.skip(n as int), styles)],
                    span.skip(1),
                );
                lemma_span_chars_one(DocNodeV::Run(text.skip(n as int), styles));
            } else {
                lemma_span_chars_one(DocNodeV::Run(text, styles));
            }
        },
        DocNodeV::Group(attrs, children) => {
            assert(node_chars(span[0]) == span_chars(children));
            assert(span_chars(span) == node_chars(span[0]) + span_chars(span.skip(1)));
            if n > 1 {
                lemma_skip_units_chars(span.skip(1), (n - 1) as nat);
                let sub = skip_units_s(span.skip(1), (n - 1) as nat)->Some_0;
                lemma_span_chars_concat(seq![DocNodeV::Group(attrs, children)], sub.0);
                lemma_span_chars_one(DocNodeV::Group(attrs, children));
                } else {
                    lemma_span_chars_one(DocNodeV::Group(attrs, children));
                }
            },
        }
    }
}

/// Restyling conserves characters: styles change, text does not.
pub proof fn lemma_style_units_chars(span: Seq<DocNodeV>, n: nat, styles: u64, add: bool)
    requires
        style_units_s(span, n, styles, add) is Some,
    ensures
        ({
            let q = style_units_s(span, n, styles, add)->Some_0;
            span_chars(q.0) + span_chars(q.1) == span_chars(span)
        }),
    decreases span,
{
    if n == 0 {
        assert(span_chars(Seq::<DocNodeV>::empty()) == 0);
    } else {
        match span[0] {
            DocNodeV::Run(text, st) => {
            assert(node_chars(span[0]) == text.len());
            assert(span_chars(span) == node_chars(span[0]) + span_chars(span.skip(1)));
            let ns = if add {
                st | styles
            } else {
                st & !styles
            };
            if text.len() < n {
                lemma_style_units_chars(span.skip(1), (n - text.len()) as nat, styles, add);
                let sub = style_units_s(span.skip(1), (n - text.len()) as nat, styles, add)
                    ->Some_0;
                lemma_span_chars_concat(seq![DocNodeV::Run(text, ns)], sub.0);
                lemma_span_chars_one(DocNodeV::Run(text, ns));
            } else if text.len() > n {
                lemma_span_chars_one(DocNodeV::Run(text.take(n as int), ns));
                lemma_span_chars_concat(
                    seq![DocNodeV::Run(text.skip(n as int), st)],
                    span.skip(1),
                );
                lemma_span_chars_one(DocNodeV::Run(text.skip(n as int), st));
            } else {
                lemma_span_chars_one(DocNodeV::Run(text, ns));
            }
            },
            DocNodeV::Group(_attrs, _children) => {},
        }
    }
}

/// Removing characters conserves the rest: the span held what remains
/// plus exactly the removed count.
pub proof fn lemma_del_chars_chars(span: Seq<DocNodeV>, n: nat)
    requires
        del_chars_s(span, n) is Some,
    ensures
        span_chars(span) == span_chars(del_chars_s(span, n)->Some_0.0) + n,
    decreases span,
{
    if n != 0 {
        match span[0] {
            DocNodeV::Run(text, st) => {
            assert(node_chars(span[0]) == text.len());
            assert(span_chars(span) == node_chars(span[0]) + span_chars(span.skip(1)));
            if text.len() < n {
                lemma_del_chars_chars(span.skip(1), (n - text.len()) as nat);
            } else if text.len() > n {
                lemma_span_chars_concat(
                    seq![DocNodeV::Run(text.skip(n as int), st)],
                    span.skip(1),
                );
                lemma_span_chars_one(DocNodeV::Run(text.skip(n as int), st));
            } else {
            }
            },
            DocNodeV::Group(_attrs, _children) => {},
        }
    }
}

/// Character conservation of deletion: the characters of a document are
/// exactly the characters of the deletion's result plus the count its
/// remove-characters instructions consumed, nested programs included.
pub proof fn lemma_delete_char_conservation(span: Seq<DocNodeV>, del: Seq<DelV>)
    requires
        apply_del_s(span, del) is Some,
    ensures
        span_chars(span) == span_chars(apply_del_s(span, del)->Some_0.0) + del_chars_total(del),
    decreases del,
{
    if del.len() == 0 {
    } else {
        assert(del_chars_total(del) == del_elem_chars(del[0]) + del_chars_total(del.skip(1)));
        match del[0] {
            DelV::DelSkip(n) => {
                assert(del_elem_chars(del[0]) == 0);
                let q = skip_units_s(span, n)->Some_0;
                lemma_skip_units_chars(span, n);
                lemma_delete_char_conservation(q.1, del.skip(1));
                let p = apply_del_s(q.1, del.skip(1))->Some_0;
                lemma_span_chars_concat(q.0, p.0);
            },
            DelV::DelStyles(n, styles) => {
                assert(del_elem_chars(del[0]) == 0);
                let q = style_units_s(span, n, styles, false)->Some_0;
                lemma_style_units_chars(span, n, styles, false);
                lemma_delete_char_conservation(q.1, del.skip(1));
                let p = apply_del_s(q.1, del.skip(1))->Some_0;
                lemma_span_chars_concat(q.0, p.0);
            },
            DelV::DelChars(n) => {
                assert(del_elem_chars(del[0]) == n);
                let rest = del_chars_s(span, n)->Some_0.0;
                lemma_del_chars_chars(span, n);
                lemma_delete_char_conservation(rest, del.skip(1));
            },
            DelV::DelWithGroup(ds) => {
                let attrs = span[0]->Group_0;
                let children = span[0]->Group_1;
                assert(del_elem_chars(del[0]) == del_chars_total(ds));
                assert(span[0] == DocNodeV::Group(attrs, children));
                assert(node_chars(span[0]) == span_chars(children));
                assert(span_chars(span) == node_chars(span[0]) + span_chars(span.skip(1)));
                lemma_delete_char_conservation(children, ds);
                let qi = apply_del_s(children, ds)->Some_0;
                lemma_delete_char_conservation(span.skip(1), del.skip(1));
                let p = apply_del_s(span.skip(1), del.skip(1))->Some_0;
                lemma_span_chars_concat(seq![DocNodeV::Group(attrs, qi.0)], p.0);
                lemma_span_chars_one(DocNodeV::Group(attrs, qi.0));
            },
            DelV::DelGroup(ds) => {
                let children = span[0]->Group_1;
                assert(del_elem_chars(del[0]) == del_chars_total(ds));
                assert(span[0] == DocNodeV::Group(span[0]->Group_0, children));
                assert(node_chars(span[0]) == span_chars(children));
                assert(span_chars(span) == node_chars(span[0]) + span_chars(span.skip(1)));
                lemma_delete_char_conservation(children, ds);
                let qi = apply_del_s(children, ds)->Some_0;
                lemma_delete_char_conservation(span.skip(1), del.skip(1));
                let p = apply_del_s(span.skip(1), del.skip(1))->Some_0;
                lemma_span_chars_concat(qi.0, p.0);
            },
        }
    }
}

/// Character conservation of insertion: the output plus the leftover
/// carry the span's characters plus exactly those of the inserted text,
/// nested programs included.
pub proof fn lemma_insert_char_conservation(span: Seq<DocNodeV>, add: Seq<AddV>)
    requires
        apply_add_s(span, add) is Some,
    ensures
        ({
            let p = apply_add_s(span, add)->Some_0;
            span_chars(p.0) + span_chars(p.1) == span_chars(span) + add_chars_total(add)
        }),
    decreases add, 0nat,
{
    if add.len() == 0 {
    } else {
        assert(add_chars_total(add) == add_elem_chars(add[0]) + add_chars_total(add.skip(1)));
        match add[0] {
            AddV::AddSkip(n) => {
                assert(add_elem_chars(add[0]) == 0);
                let q = skip_units_s(span, n)->Some_0;
                lemma_skip_units_chars(span, n);
                lemma_insert_char_conservation(q.1, add.skip(1));
                let p = apply_add_s(q.1, add.skip(1))->Some_0;
                lemma_span_chars_concat(q.0, p.0);
            },
            AddV::AddStyles(n, styles) => {
                assert(add_elem_chars(add[0]) == 0);
                let q = style_units_s(span, n, styles, true)->Some_0;
                lemma_style_units_chars(span, n, styles, true);
                lemma_insert_char_conservation(q.1, add.skip(1));
                let p = apply_add_s(q.1, add.skip(1))->Some_0;
                lemma_span_chars_concat(q.0, p.0);
            },
            AddV::AddChars(text) => {
                assert(add_elem_chars(add[0]) == text.len());
                lemma_insert_char_conservation(span, add.skip(1));
                if text.len() > 0 {
                    let p = apply_add_s(span, add.skip(1))->Some_0;
                    lemma_span_chars_concat(seq![DocNodeV::Run(text, 0)], p.0);
                    lemma_span_chars_one(DocNodeV::Run(text, 0));
                }
            },
            AddV::AddWithGroup(ins) => {
                let attrs = span[0]->Group_0;
                let children = span[0]->Group_1;
                assert(span[0] == DocNodeV::Group(attrs, children));
                assert(node_chars(span[0]) == span_chars(children));
                assert(span_chars(span) == node_chars(span[0]) + span_chars(span.skip(1)));
                assert(add_elem_chars(add[0]) == add_chars_total(ins));
                assert(apply_add_outer_s(children, ins) is Some);
                assert(apply_add_s(children, ins) is Some);
                lemma_insert_char_conservation(children, ins);
                let qi = apply_add_s(children, ins)->Some_0;
                lemma_span_chars_concat(qi.0, qi.1);
                lemma_insert_char_conservation(span.skip(1), add.skip(1));
                let p = apply_add_s(span.skip(1), add.skip(1))->Some_0;
                lemma_span_chars_concat(seq![DocNodeV::Group(attrs, qi.0 + qi.1)], p.0);
                lemma_span_chars_one(DocNodeV::Group(attrs, qi.0 + qi.1));
            },
            AddV::AddGroup(attrs, ins) => {
                assert(add_elem_chars(add[0]) == add_chars_total(ins));
                lemma_insert_char_conservation(span, ins);
                let q1 = apply_add_s(span, ins)->Some_0;
                lemma_insert_char_conservation(q1.1, add.skip(1));
                let p = apply_add_s(q1.1, add.skip(1))->Some_0;
                lemma_span_chars_concat(seq![DocNodeV::Group(attrs, q1.0)], p.0);
                lemma_span_chars_one(DocNodeV::Group(attrs, q1.0));
            },
        }
    }
}

/// A well-formed document node: a run is never empty, and a group holds
/// a well-formed span.
pub open spec fn node_wf(n: DocNodeV) -> bool
    decreases n,
{
    match n {
        DocNodeV::Run(text, _styles) => text.len() > 0,
        DocNodeV::Group(_attrs, children) => span_wf(children),
    }
}

/// A well-formed document span: every node in it is well-formed.
pub open spec fn span_wf(s: Seq<DocNodeV>) -> bool
    decreases s,
{
    s.len() == 0 || (node_wf(s[0]) && span_wf(s.skip(1)))
}

/// Well-formedness of a single-node span is that node's.
pub proof fn lemma_span_wf_one(x: DocNodeV)
    ensures
        span_wf(seq![x]) <==> node_wf(x),
{
    assert(seq![x].skip(1) =~= Seq::<DocNodeV>::empty());
    assert(seq![x][0] == x);
    assert(span_wf(Seq::<DocNodeV>::empty()));
}

/// Well-formedness distributes over concatenation of spans.
pub proof fn lemma_span_wf_concat(a: Seq<DocNodeV>, b: Seq<DocNodeV>)
    ensures
        span_wf(a + b) <==> (span_wf(a) && span_wf(b)),
    decreases a,
{
    if a.len() == 0 {
        assert(a + b =~= b);
    } else {
        assert((a + b)[0] == a[0]);
        assert((a + b).skip(1) =~= a.skip(1) + b);
        lemma_span_wf_concat(a.skip(1), b);
    }
}

/// Retaining units preserves well-formedness: no empty run is created.
pub proof fn lemma_skip_units_wf(span: Seq<DocNodeV>, n: nat)
    requires
        skip_units_s(span, n) is Some,
        span_wf(span),
    ensures
        ({
            let q = skip_units_s(span, n)->Some_0;
            span_wf(q.0) && span_wf(q.1)
        }),
    decreases span,
{
    if n == 0 {
        assert(span_wf(Seq::<DocNodeV>::empty()));
    } else {
        assert(node_wf(span[0]) && span_wf(span.skip(1)));
        match span[0] {
            DocNodeV::Run(text, styles) => {
                if text.len() < n {
                    lemma_skip_units_wf(span.skip(1), (n - text.len()) as nat);
                    let sub = skip_units_s(span.skip(1), (n - text.len()) as nat)->Some_0;
                    lemma_span_wf_concat(seq![DocNodeV::Run(text, styles)], sub.0);
                    lemma_span_wf_one(DocNodeV::Run(text, styles));
                } else if text.len() > n {
                    lemma_span_wf_one(DocNodeV::Run(text.take(n as int), styles));
                    assert(text.take(n as int).len() == n);
                    lemma_span_wf_concat(
                        seq![DocNodeV::Run(text.skip(n as int), styles)],
                        span.skip(1),
                    );
                    lemma_span_wf_one(DocNodeV::Run(text.skip(n as int), styles));
                } else {
                    lemma_span_wf_one(DocNodeV::Run(text, styles));
                }
            },
            DocNodeV::Group(attrs, children) => {
                if n > 1 {
                    lemma_skip_units_wf(span.skip(1), (n - 1) as nat);
                    let sub = skip_units_s(span.skip(1), (n - 1) as nat)->Some_0;
                    lemma_span_wf_concat(seq![DocNodeV::Group(attrs, children)], sub.0);
                    lemma_span_wf_one(DocNodeV::Group(attrs, children));
                } else {
                    lemma_span_wf_one(DocNodeV::Group(attrs, children));
                }
            },
        }
    }
}

/// Restyling preserves well-formedness: styles change, text does not.
pub proof fn lemma_style_units_wf(span: Seq<DocNodeV>, n: nat, styles: u64, add: bool)
    requires
        style_units_s(span, n, styles, add) is Some,
        span_wf(span),
    ensures
        ({
            let q = style_units_s(span, n, styles, add)->Some_0;
            span_wf(q.0) && span_wf(q.1)
        }),
    decreases span,
{
    if n == 0 {
        assert(span_wf(Seq::<DocNodeV>::empty()));
    } else {
        assert(node_wf(span[0]) && span_wf(span.skip(1)));
        match span[0] {
            DocNodeV::Run(text, st) => {
                let ns = if add {
                    st | styles
                } else {
                    st & !styles
                };
                if text.len() < n {
                    lemma_style_units_wf(span.skip(1), (n - text.len()) as nat, styles, add);
                    let sub = style_units_s(span.skip(1), (n - text.len()) as nat, styles, add)
                        ->Some_0;
                    lemma_span_wf_concat(seq![DocNodeV::Run(text, ns)], sub.0);
                    lemma_span_wf_one(DocNodeV::Run(text, ns));
                } else if text.len() > n {
                    lemma_span_wf_one(DocNodeV::Run(text.take(n as int), ns));
                    assert(text.take(n as int).len() == n);
                    lemma_span_wf_concat(
                        seq![DocNodeV::Run(text.skip(n as int), st)],
                        span.skip(1),
                    );
                    lemma_span_wf_one(DocNodeV::Run(text.skip(n as int), st));
                } else {
                    lemma_span_wf_one(DocNodeV::Run(text, ns));
                }
            },
            DocNodeV::Group(_attrs, _children) => {},
        }
    }
}

/// Removing characters preserves well-formedness of what remains.
pub proof fn lemma_del_chars_wf(span: Seq<DocNodeV>, n: nat)
    requires
        del_chars_s(span, n) is Some,
        span_wf(span),
    ensures
        span_wf(del_chars_s(span, n)->Some_0.0),
    decreases span,
{
    if n != 0 {
        assert(node_wf(span[0]) && span_wf(span.skip(1)));
        match span[0] {
            DocNodeV::Run(text, st) => {
                if text.len() < n {
                    lemma_del_chars_wf(span.skip(1), (n - text.len()) as nat);
                } else if text.len() > n {
                    lemma_span_wf_concat(
                        seq![DocNodeV::Run(text.skip(n as int), st)],
                        span.skip(1),
                    );
                    lemma_span_wf_one(DocNodeV::Run(text.skip(n as int), st));
                } else {
                }
            },
            DocNodeV::Group(_attrs, _children) => {},
        }
    }
}

/// Deletion preserves well-formedness: a well-formed document in, a
/// well-formed document out.
pub proof fn lemma_apply_del_wf(span: Seq<DocNodeV>, del: Seq<DelV>)
    requires
        apply_del_s(span, del) is Some,
        span_wf(span),
    ensures
        span_wf(apply_del_s(span, del)->Some_0.0),
    decreases del,
{
    if del.len() == 0 {
    } else {
        match del[0] {
            DelV::DelSkip(n) => {
                let q = skip_units_s(span, n)->Some_0;
                lemma_skip_units_wf(span, n);
                lemma_apply_del_wf(q.1, del.skip(1));
                let p = apply_del_s(q.1, del.skip(1))->Some_0;
                lemma_span_wf_concat(q.0, p.0);
            },
            DelV::DelStyles(n, styles) => {
                let q = style_units_s(span, n, styles, false)->Some_0;
                lemma_style_units_wf(span, n, styles, false);
                lemma_apply_del_wf(q.1, del.skip(1));
                let p = apply_del_s(q.1, del.skip(1))->Some_0;
                lemma_span_wf_concat(q.0, p.0);
            },
            DelV::DelChars(n) => {
                let rest = del_chars_s(span, n)->Some_0.0;
                lemma_del_chars_wf(span, n);
                lemma_apply_del_wf(rest, del.skip(1));
            },
            DelV::DelWithGroup(ds) => {
                let attrs = span[0]->Group_0;
                let children = span[0]->Group_1;
                assert(node_wf(span[0]) && span_wf(span.skip(1)));
                lemma_apply_del_wf(children, ds);
                let qi = apply_del_s(children, ds)->Some_0;
                lemma_apply_del_wf(span.skip(1), del.skip(1));
                let p = apply_del_s(span.skip(1), del.skip(1))->Some_0;
                lemma_span_wf_concat(seq![DocNodeV::Group(attrs, qi.0)], p.0);
                lemma_span_wf_one(DocNodeV::Group(attrs, qi.0));
            },
            DelV::DelGroup(ds) => {
                let children = span[0]->Group_1;
                assert(node_wf(span[0]) && span_wf(span.skip(1)));
                lemma_apply_del_wf(children, ds);
                let qi = apply_del_s(children, ds)->Some_0;
                lemma_apply_del_wf(span.skip(1), del.skip(1));
                let p = apply_del_s(span.skip(1), del.skip(1))->Some_0;
                lemma_span_wf_concat(qi.0, p.0);
            },
        }
    }
}

/// Insertion preserves well-formedness, of the output and the leftover.
pub proof fn lemma_apply_add_wf(span: Seq<DocNodeV>, add: Seq<AddV>)
    requires
        apply_add_s(span, add) is Some,
        span_wf(span),
    ensures
        ({
            let p = apply_add_s(span, add)->Some_0;
            span_wf(p.0) && span_wf(p.1)
        }),
    decreases add, 0nat,
{
    if add.len() == 0 {
        assert(span_wf(Seq::<DocNodeV>::empty()));
    } else {
        match add[0] {
            AddV::AddSkip(n) => {
                let q = skip_units_s(span, n)->Some_0;
                lemma_skip_units_wf(span, n);
                lemma_apply_add_wf(q.1, add.skip(1));
                let p = apply_add_s(q.1, add.skip(1))->Some_0;
                lemma_span_wf_concat(q.0, p.0);
            },
            AddV::AddStyles(n, styles) => {
                let q = style_units_s(span, n, styles, true)->Some_0;
                lemma_style_units_wf(span, n, styles, true);
                lemma_apply_add_wf(q.1, add.skip(1));
                let p = apply_add_s(q.1, add.skip(1))->Some_0;
                lemma_span_wf_concat(q.0, p.0);
            },
            AddV::AddChars(text) => {
                lemma_apply_add_wf(span, add.skip(1));
                if text.len() > 0 {
                    let p = apply_add_s(span, add.skip(1))->Some_0;
                    lemma_span_wf_concat(seq![DocNodeV::Run(text, 0)], p.0);
                    lemma_span_wf_one(DocNodeV::Run(text, 0));
                }
            },
            AddV::AddWithGroup(ins) => {
                let attrs = span[0]->Group_0;
                let children = span[0]->Group_1;
                assert(node_wf(span[0]) && span_wf(span.skip(1)));
                assert(apply_add_outer_s(children, ins) is Some);
                assert(apply_add_s(children, ins) is Some);
                lemma_apply_add_wf(children, ins);
                let qi = apply_add_s(children, ins)->Some_0;
                lemma_span_wf_concat(qi.0, qi.1);
                lemma_apply_add_wf(span.skip(1), add.skip(1));
                let p = apply_add_s(span.skip(1), add.skip(1))->Some_0;
                lemma_span_wf_concat(seq![DocNodeV::Group(attrs, qi.0 + qi.1)], p.0);
                lemma_span_wf_one(DocNodeV::Group(attrs, qi.0 + qi.1));
            },
            AddV::AddGroup(attrs, ins) => {
                lemma_apply_add_wf(span, ins);
                let q1 = apply_add_s(span, ins)->Some_0;
                lemma_apply_add_wf(q1.1, add.skip(1));
                let p = apply_add_s(q1.1, add.skip(1))->Some_0;
                lemma_span_wf_concat(seq![DocNodeV::Group(attrs, q1.0)], p.0);
                lemma_span_wf_one(DocNodeV::Group(attrs, q1.0));
            },
        }
    }
}

/// A full operation preserves well-formedness: applied to a well-formed
/// document, it returns a well-formed document — in particular, no run
/// in the output is ever empty.
pub proof fn lemma_apply_operation_wf(span: Seq<DocNodeV>, del: Seq<DelV>, add: Seq<AddV>)
    requires
        apply_op_s(span, del, add) is Some,
        span_wf(span),
    ensures
        span_wf(apply_op_s(span, del, add)->Some_0),
{
    lemma_apply_del_wf(span, del);
    let mid = apply_del_s(span, del)->Some_0.0;
    assert(apply_add_s(mid, add) is Some);
    lemma_apply_add_wf(mid, add);
    let p = apply_add_s(mid, add)->Some_0;
    lemma_span_wf_concat(p.0, p.1);
}

/// The delete instruction that retains one node unchanged, descending
/// into a group to retain its children one by one.
pub open spec fn noop_del_of_node(n: DocNodeV) -> DelV
    decreases n,
{
    match n {
        DocNodeV::Run(text, _styles) => DelV::DelSkip(text.len()),
        DocNodeV::Group(_attrs, children) => DelV::DelWithGroup(noop_del_of(children)),
    }
}

/// The deletion program that covers a whole span without changing it.
pub open spec fn noop_del_of(s: Seq<DocNodeV>) -> Seq<DelV>
    decreases s,
{
    if s.len() == 0 {
        Seq::empty()
    } else {
        seq![noop_del_of_node(s[0])] + noop_del_of(s.skip(1))
    }
}

/// The insert instruction that retains one node unchanged.
pub open spec fn noop_add_of_node(n: DocNodeV) -> AddV
    decreases n,
{
    match n {
        DocNodeV::Run(text, _styles) => AddV::AddSkip(text.len()),
        DocNodeV::Group(_attrs, children) => AddV::AddWithGroup(noop_add_of(children)),
    }
}

/// The insertion program that covers a whole span without changing it.
pub open spec fn noop_add_of(s: Seq<DocNodeV>) -> Seq<AddV>
    decreases s,
{
    if s.len() == 0 {
        Seq::empty()
    } else {
        seq![noop_add_of_node(s[0])] + noop_add_of(s.skip(1))
    }
}

/// The covering no-op deletion program leaves the span unchanged.
pub proof fn lemma_noop_del(s: Seq<DocNodeV>)
    requires
        span_wf(s),
    ensures
        apply_del_s(s, noop_del_of(s)) matches Some(p) && p.0 == s,
    decreases s,
{
    let del = noop_del_of(s);
    if s.len() == 0 {
        assert(del.len() == 0);
    } else {
        assert(del[0] == noop_del_of_node(s[0]));
        assert(del.skip(1) =~= noop_del_of(s.skip(1)));
        assert(node_wf(s[0]) && span_wf(s.skip(1)));
        match s[0] {
            DocNodeV::Run(text, styles) => {
                assert(text.len() > 0);
                lemma_noop_del(s.skip(1));
                assert(seq![DocNodeV::Run(text, styles)] + s.skip(1) =~= s);
            },
            DocNodeV::Group(attrs, children) => {
                assert(decreases_to!(s => s[0]));
                assert(span_wf(children));
                lemma_noop_del(children);
                lemma_noop_del(s.skip(1));
                let qi = apply_del_s(children, noop_del_of(children))->Some_0;
                assert(seq![DocNodeV::Group(attrs, qi.0)] + s.skip(1) =~= s);
            },
        }
    }
}

/// The covering no-op insertion program leaves the span unchanged, with
/// no leftover.
pub proof fn lemma_noop_add(s: Seq<DocNodeV>)
    requires
        span_wf(s),
    ensures
        apply_add_s(s, noop_add_of(s)) matches Some(p) && p.0 == s && p.1
            == Seq::<DocNodeV>::empty(),
    decreases s,
{
    let add = noop_add_of(s);
    if s.len() == 0 {
        assert(add.len() == 0);
        assert(s =~= Seq::<DocNodeV>::empty());
    } else {
        assert(add[0] == noop_add_of_node(s[0]));
        assert(add.skip(1) =~= noop_add_of(s.skip(1)));
        assert(node_wf(s[0]) && span_wf(s.skip(1)));
        match s[0] {
            DocNodeV::Run(text, styles) => {
                assert(text.len() > 0);
                lemma_noop_add(s.skip(1));
                assert(apply_add_s(s.skip(1), add.skip(1)) is Some);
                let p = apply_add_s(s.skip(1), add.skip(1))->Some_0;
                assert(p.0 == s.skip(1));
                assert(skip_units_s(s, text.len()) == Some(
                    (
                        seq![DocNodeV::Run(text, styles)],
                        s.skip(1),
                        seq![BytecodeV::AdvanceElements(1)],
                    ),
                ));
                assert(seq![DocNodeV::Run(text, styles)] + p.0 =~= s);
                assert(apply_add_s(s, add) matches Some(p2) && p2.0 == s && p2.1
                    == Seq::<DocNodeV>::empty());
            },
            DocNodeV::Group(attrs, children) => {
                assert(decreases_to!(s => s[0]));
                assert(span_wf(children));
                lemma_noop_add(children);
                lemma_noop_add(s.skip(1));
                let qi = apply_add_s(children, noop_add_of(children))->Some_0;
                assert(qi.0 + qi.1 =~= children);
                assert(apply_add_outer_s(children, noop_add_of(children)) matches Some(o) && o.0
                    == children);
                let p = apply_add_s(s.skip(1), add.skip(1))->Some_0;
                assert(p.0 == s.skip(1));
                assert(seq![DocNodeV::Group(attrs, children)] + p.0 =~= s);
                assert(apply_add_s(s, add) matches Some(p2) && p2.0 == s && p2.1
                    == Seq::<DocNodeV>::empty());
            },
        }
    }
}

/// Round-trip identity: an operation made only of skips and descents
/// that covers the whole document returns the document unchanged.
pub proof fn lemma_noop_round_trip(s: Seq<DocNodeV>)
    requires
        span_wf(s),
    ensures
        apply_op_s(s, noop_del_of(s), noop_add_of(s)) == Some(s),
{
    lemma_noop_del(s);
    lemma_noop_add(s);
    assert(s + Seq::<DocNodeV>::empty() =~= s);
}

/// Restyling the restyled range again with the same set changes nothing:
/// set union is idempotent.
pub proof fn lemma_style_units_idempotent(span: Seq<DocNodeV>, n: nat, styles: u64)
    requires
        style_units_s(span, n, styles, true) is Some,
    ensures
        ({
            let q = style_units_s(span, n, styles, true)->Some_0;
            &&& (n > 0 ==> q.0.len() > 0)
            &&& style_units_s(q.0 + q.1, n, styles, true) matches Some(q2) && q2.0 == q.0 && q2.1
                == q.1
        }),
    decreases span,
{
    let q = style_units_s(span, n, styles, true)->Some_0;
    if n == 0 {
        assert(q.0 + q.1 =~= span);
    } else {
    match span[0] {
        DocNodeV::Run(text, st) => {
            let ns = st | styles;
            assert((st | styles) | styles == st | styles) by (bit_vector);
            if text.len() < n {
                lemma_style_units_idempotent(span.skip(1), (n - text.len()) as nat, styles);
                let sub = style_units_s(span.skip(1), (n - text.len()) as nat, styles, true)
                    ->Some_0;
                assert((q.0 + q.1)[0] == DocNodeV::Run(text, ns));
                assert((q.0 + q.1).skip(1) =~= sub.0 + sub.1);
                let q2 = style_units_s(q.0 + q.1, n, styles, true)->Some_0;
                assert(q2.0 =~= q.0);
            } else if text.len() > n {
                assert((q.0 + q.1)[0] == DocNodeV::Run(text.take(n as int), ns));
                assert(text.take(n as int).len() == n);
                assert((q.0 + q.1).skip(1) =~= q.1);
            } else {
                assert((q.0 + q.1)[0] == DocNodeV::Run(text, ns));
                assert((q.0 + q.1).skip(1) =~= q.1);
            }
        },
        DocNodeV::Group(_attrs, _children) => {},
    }
    }
}

/// The touched character range of a span carries none of the given
/// styles.
pub open spec fn styles_clear(span: Seq<DocNodeV>, n: nat, styles: u64) -> bool
    decreases span,
{
    if span.len() == 0 {
        true
    } else {
        match span[0] {
            DocNodeV::Run(text, st) => st & styles == 0 && (text.len() < n ==> styles_clear(
                span.skip(1),
                (n - text.len()) as nat,
                styles,
            )),
            DocNodeV::Group(_attrs, _children) => true,
        }
    }
}

/// Removing a style set just after adding it restores the original
/// styles: the result is exactly what retaining the same range yields.
pub proof fn lemma_style_units_restore(span: Seq<DocNodeV>, n: nat, styles: u64)
    requires
        style_units_s(span, n, styles, true) is Some,
        styles_clear(span, n, styles),
    ensures
        ({
            let q = style_units_s(span, n, styles, true)->Some_0;
            &&& (n > 0 ==> q.0.len() > 0)
            &&& skip_units_s(span, n) is Some
            &&& style_units_s(q.0 + q.1, n, styles, false) matches Some(q2) && q2.0
                == skip_units_s(span, n)->Some_0.0 && q2.1 == skip_units_s(span, n)->Some_0.1
        }),
    decreases span,
{
    let q = style_units_s(span, n, styles, true)->Some_0;
    if n == 0 {
        assert(q.0 + q.1 =~= span);
    } else {
    match span[0] {
        DocNodeV::Run(text, st) => {
            let ns = st | styles;
            assert(st & styles == 0 ==> ((st | styles) & !styles) == st) by (bit_vector);
            if text.len() < n {
                lemma_style_units_restore(span.skip(1), (n - text.len()) as nat, styles);
                let sub = style_units_s(span.skip(1), (n - text.len()) as nat, styles, true)
                    ->Some_0;
                let sk = skip_units_s(span.skip(1), (n - text.len()) as nat)->Some_0;
                assert((q.0 + q.1)[0] == DocNodeV::Run(text, ns));
                assert((q.0 + q.1).skip(1) =~= sub.0 + sub.1);
                let q2 = style_units_s(q.0 + q.1, n, styles, false)->Some_0;
                assert(q2.0 =~= seq![DocNodeV::Run(text, st)] + sk.0);
                assert(skip_units_s(span, n)->Some_0.0 =~= seq![DocNodeV::Run(text, st)] + sk.0);
            } else if text.len() > n {
                assert((q.0 + q.1)[0] == DocNodeV::Run(text.take(n as int), ns));
                assert(text.take(n as int).len() == n);
                assert((q.0 + q.1).skip(1) =~= q.1);
            } else {
                assert((q.0 + q.1)[0] == DocNodeV::Run(text, ns));
                assert((q.0 + q.1).skip(1) =~= q.1);
            }
        },
        DocNodeV::Group(_attrs, _children) => {},
    }
    }
}

/// Style idempotence at the operation level: applying the same style
/// instruction to the result of applying it changes nothing further.
pub proof fn lemma_add_styles_idempotent(span: Seq<DocNodeV>, n: nat, styles: u64)
    requires
        apply_add_outer_s(span, seq![AddV::AddStyles(n, styles)]) is Some,
    ensures
        ({
            let once = apply_add_outer_s(span, seq![AddV::AddStyles(n, styles)])->Some_0.0;
            apply_add_outer_s(once, seq![AddV::AddStyles(n, styles)]) matches Some(p) && p.0
                == once
        }),
{
    let op = seq![AddV::AddStyles(n, styles)];
    assert(op[0] == AddV::AddStyles(n, styles));
    assert(op.skip(1) =~= Seq::<AddV>::empty());
    let q = style_units_s(span, n, styles, true)->Some_0;
    lemma_style_units_idempotent(span, n, styles);
    let once = apply_add_outer_s(span, op)->Some_0.0;
    assert(apply_add_s(span, op) is Some);
    assert(span.len() > 0);
    assert(apply_add_s(q.1, op.skip(1)) == Some(
        (Seq::<DocNodeV>::empty(), q.1, Seq::<BytecodeV>::empty()),
    ));
    let p1 = apply_add_s(span, op)->Some_0;
    assert(p1.0 == q.0 + Seq::<DocNodeV>::empty());
    assert(q.0 + Seq::<DocNodeV>::empty() =~= q.0);
    assert(once == q.0 + q.1);
    let q2 = style_units_s(q.0 + q.1, n, styles, true)->Some_0;
    assert(once.len() > 0);
    assert(apply_add_outer_s(once, op) matches Some(p) && p.0 == once);
}

/// Style restoration at the operation level: removing a style set right
/// after an operation added it yields the document a plain skip of the
/// same range yields, so the original styles stand again.
pub proof fn lemma_remove_styles_after_add(span: Seq<DocNodeV>, n: nat, styles: u64)
    requires
        apply_add_outer_s(span, seq![AddV::AddStyles(n, styles)]) is Some,
        styles_clear(span, n, styles),
    ensures
        apply_del_s(span, seq![DelV::DelSkip(n)]) is Some,
        ({
            let once = apply_add_outer_s(span, seq![AddV::AddStyles(n, styles)])->Some_0.0;
            apply_del_s(once, seq![DelV::DelStyles(n, styles)]) matches Some(p) && p.0
                == apply_del_s(span, seq![DelV::DelSkip(n)])->Some_0.0
        }),
{
    let aop = seq![AddV::AddStyles(n, styles)];
    assert(aop[0] == AddV::AddStyles(n, styles));
    assert(aop.skip(1) =~= Seq::<AddV>::empty());
    let dop = seq![DelV::DelStyles(n, styles)];
    assert(dop[0] == DelV::DelStyles(n, styles));
    assert(dop.skip(1) =~= Seq::<DelV>::empty());
    let sop = seq![DelV::DelSkip(n)];
    assert(sop[0] == DelV::DelSkip(n));
    assert(sop.skip(1) =~= Seq::<DelV>::empty());
    let q = style_units_s(span, n, styles, true)->Some_0;
    lemma_style_units_restore(span, n, styles);
    let sk = skip_units_s(span, n)->Some_0;
    let once = apply_add_outer_s(span, aop)->Some_0.0;
    assert(apply_add_s(span, aop) is Some);
    assert(span.len() > 0);
    assert(apply_add_s(q.1, aop.skip(1)) == Some(
        (Seq::<DocNodeV>::empty(), q.1, Seq::<BytecodeV>::empty()),
    ));
    let p1 = apply_add_s(span, aop)->Some_0;
    assert(p1.0 == q.0 + Seq::<DocNodeV>::empty());
    assert(q.0 + Seq::<DocNodeV>::empty() =~= q.0);
    assert(once == q.0 + q.1);
    assert(once.len() > 0);
    let q2 = style_units_s(once, n, styles, false)->Some_0;
    assert(apply_del_s(sk.1, dop.skip(1)) == Some((sk.1, Seq::<BytecodeV>::empty())));
    assert(apply_del_s(once, dop) matches Some(p) && p.0 == sk.0 + sk.1);
    assert(apply_del_s(span, sop) matches Some(p) && p.0 == sk.0 + sk.1);
}

} // verus!
