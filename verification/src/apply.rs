//! The two engines and the operation driver: executable merges of a
//! document span with an operation program, each proved to produce exactly
//! the span and the trace that the functions in [`crate::sem`] define.

use vstd::prelude::*;
use crate::doc::copy_attrs;
use crate::doc::copy_chars;
use crate::doc::copy_node;
use crate::doc::copy_span_from;
use crate::doc::lemma_span_dv_concat;
use crate::doc::lemma_span_dv_index;
use crate::doc::lemma_span_dv_one;
use crate::doc::span_dv;
use crate::doc::split_chars;
use crate::doc::add_dv;
use crate::doc::del_dv;
use crate::doc::lemma_add_dv_index;
use crate::doc::lemma_del_dv_index;
use crate::doc::AddElement;
use crate::doc::AddV;
use crate::doc::DelElement;
use crate::doc::DelV;
use crate::doc::DocNode;
use crate::doc::DocNodeV;
use crate::doc::MalformedOperation;
use crate::doc::Op;
use crate::sem::apply_add_outer_s;
use crate::sem::apply_add_s;
use crate::sem::apply_del_s;
use crate::sem::apply_op_s;
use crate::sem::del_chars_s;
use crate::sem::skip_units_s;
use crate::sem::style_units_s;
use crate::trace::lemma_place_all_app;
use crate::trace::lemma_place_all_one;
use crate::trace::place_all_s;
use crate::trace::Bytecode;
use crate::trace::BytecodeV;
use crate::trace::Program;

verus! {

/// Retains `n` units from the node at `from` on, splitting a run that the
/// count ends inside; a group counts as one unit.
fn skip_units(bc: &mut Program, span: &Vec<DocNode>, from: usize, n: usize) -> (r: Result<
    (Vec<DocNode>, Vec<DocNode>),
    MalformedOperation,
>)
    requires
        from <= span@.len(),
    ensures
        ({
            let s = skip_units_s(span_dv(span@).skip(from as int), n as nat);
            match r {
                Ok(p) => s matches Some(q) && span_dv(p.0@) == q.0 && span_dv(p.1@) == q.1
                    && final(bc)@ == place_all_s(old(bc)@, q.2),
                Err(_) => s is None,
            }
        }),
    decreases span@.len() - from,
{
    let ghost sv = span_dv(span@).skip(from as int);
    proof {
        lemma_span_dv_index(span@);
    }
    if n == 0 {
        let out: Vec<DocNode> = Vec::new();
        let rest = copy_span_from(span, from);
        proof {
            assert(span_dv(out@) == Seq::<DocNodeV>::empty());
            assert(place_all_s(old(bc)@, Seq::<BytecodeV>::empty()) == old(bc)@);
        }
        Ok((out, rest))
    } else if from == span.len() {
        Err(MalformedOperation)
    } else {
        proof {
            assert(sv[0] == span_dv(span@)[from as int]);
            assert(span_dv(span@)[from as int] == span@[from as int].dv());
        }
        match &span[from] {
            DocNode::Run(text, styles) => {
                if text.len() < n {
                    bc.place(Bytecode::AdvanceElements(1));
                    let node = DocNode::Run(copy_chars(text), *styles);
                    proof {
                        assert(sv.skip(1) =~= span_dv(span@).skip(from + 1));
                    }
                    match skip_units(bc, span, from + 1, n - text.len()) {
                        Err(e) => Err(e),
                        Ok((out_tail, rest)) => {
                            let ghost ot = out_tail@;
                            let mut out: Vec<DocNode> = Vec::new();
                            out.push(node);
                            let mut out_tail = out_tail;
                            out.append(&mut out_tail);
                            proof {
                                assert(out@ =~= seq![node] + ot);
                                lemma_span_dv_concat(seq![node], ot);
                                lemma_span_dv_one(node);
                                let sub = skip_units_s(sv.skip(1), (n - text@.len()) as nat);
                                lemma_place_all_one(old(bc)@, BytecodeV::AdvanceElements(1));
                                lemma_place_all_app(
                                    old(bc)@,
                                    seq![BytecodeV::AdvanceElements(1)],
                                    sub->Some_0.2,
                                );
                            }
                            Ok((out, rest))
                        },
                    }
                } else if text.len() > n {
                    bc.place(Bytecode::DeleteElements(1));
                    let (left, right) = split_chars(text, n);
                    let left_text = copy_chars(&left);
                    bc.place(Bytecode::InsertString(left_text));
                    let mut out: Vec<DocNode> = Vec::new();
                    out.push(DocNode::Run(left, *styles));
                    let mut rest: Vec<DocNode> = Vec::new();
                    rest.push(DocNode::Run(right, *styles));
                    let mut tail = copy_span_from(span, from + 1);
                    let ghost tl = tail@;
                    rest.append(&mut tail);
                    proof {
                        assert(sv.skip(1) =~= span_dv(span@).skip(from + 1));
                        lemma_span_dv_one(DocNode::Run(left, *styles));
                        assert(out@ =~= seq![DocNode::Run(left, *styles)]);
                        assert(rest@ =~= seq![DocNode::Run(right, *styles)] + tl);
                        lemma_span_dv_concat(seq![DocNode::Run(right, *styles)], tl);
                        lemma_span_dv_one(DocNode::Run(right, *styles));
                        lemma_place_all_one(old(bc)@, BytecodeV::DeleteElements(1));
                        lemma_place_all_app(
                            old(bc)@,
                            seq![BytecodeV::DeleteElements(1)],
                            seq![BytecodeV::InsertString(text@.take(n as int))],
                        );
                        lemma_place_all_one(
                            place_all_s(old(bc)@, seq![BytecodeV::DeleteElements(1)]),
                            BytecodeV::InsertString(text@.take(n as int)),
                        );
                        assert(seq![BytecodeV::DeleteElements(1)] + seq![
                            BytecodeV::InsertString(text@.take(n as int)),
                        ] =~= seq![
                            BytecodeV::DeleteElements(1),
                            BytecodeV::InsertString(text@.take(n as int)),
                        ]);
                    }
                    Ok((out, rest))
                } else {
                    bc.place(Bytecode::AdvanceElements(1));
                    let node = DocNode::Run(copy_chars(text), *styles);
                    let mut out: Vec<DocNode> = Vec::new();
                    out.push(node);
                    let rest = copy_span_from(span, from + 1);
                    proof {
                        assert(sv.skip(1) =~= span_dv(span@).skip(from + 1));
                        assert(out@ =~= seq![node]);
                        lemma_span_dv_one(node);
                        lemma_place_all_one(old(bc)@, BytecodeV::AdvanceElements(1));
                    }
                    Ok((out, rest))
                }
            },
            DocNode::Group(_attrs, _children) => {
                let node = copy_node(&span[from]);
                bc.place(Bytecode::AdvanceElements(1));
                if n > 1 {
                    proof {
                        assert(sv.skip(1) =~= span_dv(span@).skip(from + 1));
                    }
                    match skip_units(bc, span, from + 1, n - 1) {
                        Err(e) => Err(e),
                        Ok((out_tail, rest)) => {
                            let ghost ot = out_tail@;
                            let mut out: Vec<DocNode> = Vec::new();
                            out.push(node);
                            let mut out_tail = out_tail;
                            out.append(&mut out_tail);
                            proof {
                                assert(out@ =~= seq![node] + ot);
                                lemma_span_dv_concat(seq![node], ot);
                                lemma_span_dv_one(node);
                                let sub = skip_units_s(sv.skip(1), (n - 1) as nat);
                                lemma_place_all_one(old(bc)@, BytecodeV::AdvanceElements(1));
                                lemma_place_all_app(
                                    old(bc)@,
                                    seq![BytecodeV::AdvanceElements(1)],
                                    sub->Some_0.2,
                                );
                            }
                            Ok((out, rest))
                        },
                    }
                } else {
                    let mut out: Vec<DocNode> = Vec::new();
                    out.push(node);
                    let rest = copy_span_from(span, from + 1);
                    proof {
                        assert(sv.skip(1) =~= span_dv(span@).skip(from + 1));
                        assert(out@ =~= seq![node]);
                        lemma_span_dv_one(node);
                        lemma_place_all_one(old(bc)@, BytecodeV::AdvanceElements(1));
                    }
                    Ok((out, rest))
                }
            },
        }
    }
}

/// Restyles the next `n` character units from the node at `from` on:
/// union when `add` holds, difference otherwise.  Only runs are valid.
fn style_units(
    bc: &mut Program,
    span: &Vec<DocNode>,
    from: usize,
    n: usize,
    styles: u64,
    add: bool,
) -> (r: Result<(Vec<DocNode>, Vec<DocNode>), MalformedOperation>)
    requires
        from <= span@.len(),
    ensures
        ({
            let s = style_units_s(span_dv(span@).skip(from as int), n as nat, styles, add);
            match r {
                Ok(p) => s matches Some(q) && span_dv(p.0@) == q.0 && span_dv(p.1@) == q.1
                    && final(bc)@ == place_all_s(old(bc)@, q.2),
                Err(_) => s is None,
            }
        }),
    decreases span@.len() - from,
{
    let ghost sv = span_dv(span@).skip(from as int);
    proof {
        lemma_span_dv_index(span@);
    }
    if n == 0 {
        let out: Vec<DocNode> = Vec::new();
        let rest = copy_span_from(span, from);
        proof {
            assert(span_dv(out@) == Seq::<DocNodeV>::empty());
            assert(place_all_s(old(bc)@, Seq::<BytecodeV>::empty()) == old(bc)@);
        }
        Ok((out, rest))
    } else if from == span.len() {
        Err(MalformedOperation)
    } else {
        proof {
            assert(sv[0] == span_dv(span@)[from as int]);
            assert(span_dv(span@)[from as int] == span@[from as int].dv());
        }
        match &span[from] {
            DocNode::Run(text, st) => {
                let ns = if add {
                    *st | styles
                } else {
                    *st & !styles
                };
                if text.len() < n {
                    bc.place(Bytecode::DeleteElements(1));
                    bc.place(Bytecode::InsertString(copy_chars(text)));
                    let ghost bc1 = bc@;
                    let node = DocNode::Run(copy_chars(text), ns);
                    proof {
                        assert(sv.skip(1) =~= span_dv(span@).skip(from + 1));
                        lemma_place_all_one(old(bc)@, BytecodeV::DeleteElements(1));
                        lemma_place_all_app(
                            old(bc)@,
                            seq![BytecodeV::DeleteElements(1)],
                            seq![BytecodeV::InsertString(text@)],
                        );
                        lemma_place_all_one(
                            place_all_s(old(bc)@, seq![BytecodeV::DeleteElements(1)]),
                            BytecodeV::InsertString(text@),
                        );
                        assert(seq![BytecodeV::DeleteElements(1)] + seq![
                            BytecodeV::InsertString(text@),
                        ] =~= seq![
                            BytecodeV::DeleteElements(1),
                            BytecodeV::InsertString(text@),
                        ]);
                        assert(bc1 == place_all_s(
                            old(bc)@,
                            seq![BytecodeV::DeleteElements(1), BytecodeV::InsertString(text@)],
                        ));
                    }
                    match style_units(bc, span, from + 1, n - text.len(), styles, add) {
                        Err(e) => Err(e),
                        Ok((out_tail, rest)) => {
                            let ghost ot = out_tail@;
                            let mut out: Vec<DocNode> = Vec::new();
                            out.push(node);
                            let mut out_tail = out_tail;
                            out.append(&mut out_tail);
                            proof {
                                assert(out@ =~= seq![node] + ot);
                                lemma_span_dv_concat(seq![node], ot);
                                lemma_span_dv_one(node);
                                let sub = style_units_s(
                                    sv.skip(1),
                                    (n - text@.len()) as nat,
                                    styles,
                                    add,
                                );
                                lemma_place_all_app(
                                    old(bc)@,
                                    seq![
                                        BytecodeV::DeleteElements(1),
                                        BytecodeV::InsertString(text@),
                                    ],
                                    sub->Some_0.2,
                                );
                            }
                            Ok((out, rest))
                        },
                    }
                } else if text.len() > n {
                    bc.place(Bytecode::DeleteElements(1));
                    let (left, right) = split_chars(text, n);
                    let left_text = copy_chars(&left);
                    bc.place(Bytecode::InsertString(left_text));
                    let mut out: Vec<DocNode> = Vec::new();
                    out.push(DocNode::Run(left, ns));
                    let mut rest: Vec<DocNode> = Vec::new();
                    rest.push(DocNode::Run(right, *st));
                    let mut tail = copy_span_from(span, from + 1);
                    let ghost tl = tail@;
                    rest.append(&mut tail);
                    proof {
                        assert(sv.skip(1) =~= span_dv(span@).skip(from + 1));
                        lemma_span_dv_one(DocNode::Run(left, ns));
                        assert(out@ =~= seq![DocNode::Run(left, ns)]);
                        assert(rest@ =~= seq![DocNode::Run(right, *st)] + tl);
                        lemma_span_dv_concat(seq![DocNode::Run(right, *st)], tl);
                        lemma_span_dv_one(DocNode::Run(right, *st));
                        lemma_place_all_one(old(bc)@, BytecodeV::DeleteElements(1));
                        lemma_place_all_app(
                            old(bc)@,
                            seq![BytecodeV::DeleteElements(1)],
                            seq![BytecodeV::InsertString(text@.take(n as int))],
                        );
                        lemma_place_all_one(
                            place_all_s(old(bc)@, seq![BytecodeV::DeleteElements(1)]),
                            BytecodeV::InsertString(text@.take(n as int)),
                        );
                        assert(seq![BytecodeV::DeleteElements(1)] + seq![
                            BytecodeV::InsertString(text@.take(n as int)),
                        ] =~= seq![
                            BytecodeV::DeleteElements(1),
                            BytecodeV::InsertString(text@.take(n as int)),
                        ]);
                    }
                    Ok((out, rest))
                } else {
                    bc.place(Bytecode::DeleteElements(1));
                    bc.place(Bytecode::InsertString(copy_chars(text)));
                    let node = DocNode::Run(copy_chars(text), ns);
                    let mut out: Vec<DocNode> = Vec::new();
                    out.push(node);
                    let rest = copy_span_from(span, from + 1);
                    proof {
                        assert(sv.skip(1) =~= span_dv(span@).skip(from + 1));
                        assert(out@ =~= seq![node]);
                        lemma_span_dv_one(node);
                        lemma_place_all_one(old(bc)@, BytecodeV::DeleteElements(1));
                        lemma_place_all_app(
                            old(bc)@,
                            seq![BytecodeV::DeleteElements(1)],
                            seq![BytecodeV::InsertString(text@)],
                        );
                        lemma_place_all_one(
                            place_all_s(old(bc)@, seq![BytecodeV::DeleteElements(1)]),
                            BytecodeV::InsertString(text@),
                        );
                        assert(seq![BytecodeV::DeleteElements(1)] + seq![
                            BytecodeV::InsertString(text@),
                        ] =~= seq![
                            BytecodeV::DeleteElements(1),
                            BytecodeV::InsertString(text@),
                        ]);
                    }
                    Ok((out, rest))
                }
            },
            DocNode::Group(_attrs, _children) => Err(MalformedOperation),
        }
    }
}

/// Removes the next `n` characters from the node at `from` on, producing
/// no document output; the trace deletes each consumed run, re-inserting
/// the kept tail of a run the count ends inside.  Only runs are valid.
fn del_chars(bc: &mut Program, span: &Vec<DocNode>, from: usize, n: usize) -> (r: Result<
    Vec<DocNode>,
    MalformedOperation,
>)
    requires
        from <= span@.len(),
    ensures
        ({
            let s = del_chars_s(span_dv(span@).skip(from as int), n as nat);
            match r {
                Ok(rest) => s matches Some(q) && span_dv(rest@) == q.0 && final(bc)@
                    == place_all_s(old(bc)@, q.1),
                Err(_) => s is None,
            }
        }),
    decreases span@.len() - from,
{
    let ghost sv = span_dv(span@).skip(from as int);
    proof {
        lemma_span_dv_index(span@);
    }
    if n == 0 {
        let rest = copy_span_from(span, from);
        proof {
            assert(place_all_s(old(bc)@, Seq::<BytecodeV>::empty()) == old(bc)@);
        }
        Ok(rest)
    } else if from == span.len() {
        Err(MalformedOperation)
    } else {
        proof {
            assert(sv[0] == span_dv(span@)[from as int]);
            assert(span_dv(span@)[from as int] == span@[from as int].dv());
        }
        match &span[from] {
            DocNode::Run(text, st) => {
                if text.len() < n {
                    bc.place(Bytecode::DeleteElements(1));
                    proof {
                        assert(sv.skip(1) =~= span_dv(span@).skip(from + 1));
                        lemma_place_all_one(old(bc)@, BytecodeV::DeleteElements(1));
                    }
                    match del_chars(bc, span, from + 1, n - text.len()) {
                        Err(e) => Err(e),
                        Ok(rest) => {
                            proof {
                                let sub = del_chars_s(sv.skip(1), (n - text@.len()) as nat);
                                lemma_place_all_app(
                                    old(bc)@,
                                    seq![BytecodeV::DeleteElements(1)],
                                    sub->Some_0.1,
                                );
                            }
                            Ok(rest)
                        },
                    }
                } else if text.len() > n {
                    bc.place(Bytecode::DeleteElements(1));
                    let (_left, right) = split_chars(text, n);
                    let right_text = copy_chars(&right);
                    bc.place(Bytecode::InsertString(right_text));
                    let mut rest: Vec<DocNode> = Vec::new();
                    rest.push(DocNode::Run(right, *st));
                    let mut tail = copy_span_from(span, from + 1);
                    let ghost tl = tail@;
                    rest.append(&mut tail);
                    proof {
                        assert(sv.skip(1) =~= span_dv(span@).skip(from + 1));
                        assert(rest@ =~= seq![DocNode::Run(right, *st)] + tl);
                        lemma_span_dv_concat(seq![DocNode::Run(right, *st)], tl);
                        lemma_span_dv_one(DocNode::Run(right, *st));
                        lemma_place_all_one(old(bc)@, BytecodeV::DeleteElements(1));
                        lemma_place_all_app(
                            old(bc)@,
                            seq![BytecodeV::DeleteElements(1)],
                            seq![BytecodeV::InsertString(text@.skip(n as int))],
                        );
                        lemma_place_all_one(
                            place_all_s(old(bc)@, seq![BytecodeV::DeleteElements(1)]),
                            BytecodeV::InsertString(text@.skip(n as int)),
                        );
                        assert(seq![BytecodeV::DeleteElements(1)] + seq![
                            BytecodeV::InsertString(text@.skip(n as int)),
                        ] =~= seq![
                            BytecodeV::DeleteElements(1),
                            BytecodeV::InsertString(text@.skip(n as int)),
                        ]);
                    }
                    Ok(rest)
                } else {
                    bc.place(Bytecode::DeleteElements(1));
                    let rest = copy_span_from(span, from + 1);
                    proof {
                        assert(sv.skip(1) =~= span_dv(span@).skip(from + 1));
                        lemma_place_all_one(old(bc)@, BytecodeV::DeleteElements(1));
                    }
                    Ok(rest)
                }
            },
            DocNode::Group(_attrs, _children) => Err(MalformedOperation),
        }
    }
}

/// Applies the deletion program from instruction `dfrom` on to the whole
/// of `span`, emitting the trace into `bc`.
fn apply_del_rec(bc: &mut Program, span: &Vec<DocNode>, del: &Vec<DelElement>, dfrom: usize) -> (r:
    Result<Vec<DocNode>, MalformedOperation>)
    requires
        dfrom <= del@.len(),
    ensures
        ({
            let s = apply_del_s(span_dv(span@), del_dv(del@).skip(dfrom as int));
            match r {
                Ok(out) => s matches Some(p) && span_dv(out@) == p.0 && final(bc)@ == place_all_s(
                    old(bc)@,
                    p.1,
                ),
                Err(_) => s is None,
            }
        }),
    decreases del@.skip(dfrom as int),
{
    let ghost sv = span_dv(span@);
    let ghost dvs = del_dv(del@).skip(dfrom as int);
    proof {
        lemma_span_dv_index(span@);
        lemma_del_dv_index(del@);
    }
    if dfrom == del.len() {
        let out = copy_span_from(span, 0);
        proof {
            assert(dvs =~= Seq::<DelV>::empty());
            assert(span_dv(span@).skip(0) =~= sv);
            assert(place_all_s(old(bc)@, Seq::<BytecodeV>::empty()) == old(bc)@);
        }
        Ok(out)
    } else if span.len() == 0 {
        Err(MalformedOperation)
    } else {
        proof {
            assert(dvs[0] == del_dv(del@)[dfrom as int]);
            assert(del_dv(del@)[dfrom as int] == del@[dfrom as int].dv());
        }
        proof {
            assert(decreases_to!(del@.skip(dfrom as int) => del@.skip(dfrom as int).skip(1)));
            assert(del@.skip(dfrom as int).skip(1) =~= del@.skip(dfrom as int + 1));
            assert(dvs.skip(1) =~= del_dv(del@).skip(dfrom as int + 1));
            assert(span_dv(span@).skip(0) =~= sv);
        }
        match &del[dfrom] {
            DelElement::DelSkip(n) => {
                match skip_units(bc, span, 0, *n) {
                    Err(e) => Err(e),
                    Ok((out, rest)) => {
                        let ghost q = skip_units_s(sv, *n as nat)->Some_0;
                        match apply_del_rec(bc, &rest, del, dfrom + 1) {
                            Err(e) => Err(e),
                            Ok(out2) => {
                                let ghost p = apply_del_s(span_dv(rest@), dvs.skip(1))->Some_0;
                                let ghost o1 = out@;
                                let ghost o2 = out2@;
                                let mut out = out;
                                let mut out2 = out2;
                                out.append(&mut out2);
                                proof {
                                    lemma_span_dv_concat(o1, o2);
                                    lemma_place_all_app(old(bc)@, q.2, p.1);
                                }
                                Ok(out)
                            },
                        }
                    },
                }
            },
            DelElement::DelStyles(n, styles) => {
                match style_units(bc, span, 0, *n, *styles, false) {
                    Err(e) => Err(e),
                    Ok((out, rest)) => {
                        let ghost q = style_units_s(sv, *n as nat, *styles, false)->Some_0;
                        match apply_del_rec(bc, &rest, del, dfrom + 1) {
                            Err(e) => Err(e),
                            Ok(out2) => {
                                let ghost p = apply_del_s(span_dv(rest@), dvs.skip(1))->Some_0;
                                let ghost o1 = out@;
                                let ghost o2 = out2@;
                                let mut out = out;
                                let mut out2 = out2;
                                out.append(&mut out2);
                                proof {
                                    lemma_span_dv_concat(o1, o2);
                                    lemma_place_all_app(old(bc)@, q.2, p.1);
                                }
                                Ok(out)
                            },
                        }
                    },
                }
            },
            DelElement::DelChars(n) => {
                match del_chars(bc, span, 0, *n) {
                    Err(e) => Err(e),
                    Ok(rest) => {
                        let ghost q = del_chars_s(sv, *n as nat)->Some_0;
                        match apply_del_rec(bc, &rest, del, dfrom + 1) {
                            Err(e) => Err(e),
                            Ok(out2) => {
                                let ghost p = apply_del_s(span_dv(rest@), dvs.skip(1))->Some_0;
                                proof {
                                    lemma_place_all_app(old(bc)@, q.1, p.1);
                                }
                                Ok(out2)
                            },
                        }
                    },
                }
            },
            DelElement::DelWithGroup(ds) => {
                proof {
                    assert(del@.skip(dfrom as int)[0] == del@[dfrom as int]);
                    assert(decreases_to!(del@.skip(dfrom as int) => del@.skip(dfrom as int)[0]));
                    assert(decreases_to!(*ds => ds@));
                    assert(ds@.skip(0) =~= ds@);
                    assert(del_dv(ds@).skip(0) =~= del_dv(ds@));
                    assert(sv[0] == span@[0].dv());
                }
                match &span[0] {
                    DocNode::Run(_text, _styles) => Err(MalformedOperation),
                    DocNode::Group(attrs, children) => {
                        bc.place(Bytecode::Enter);
                        proof {
                            lemma_place_all_one(old(bc)@, BytecodeV::Enter);
                        }
                        match apply_del_rec(bc, children, ds, 0) {
                            Err(e) => Err(e),
                            Ok(inner) => {
                                let ghost qi = apply_del_s(
                                    span_dv(children@),
                                    del_dv(ds@),
                                )->Some_0;
                                bc.place(Bytecode::Exit);
                                proof {
                                    lemma_place_all_app(old(bc)@, seq![BytecodeV::Enter], qi.1);
                                    lemma_place_all_one(
                                        place_all_s(old(bc)@, seq![BytecodeV::Enter] + qi.1),
                                        BytecodeV::Exit,
                                    );
                                    lemma_place_all_app(
                                        old(bc)@,
                                        seq![BytecodeV::Enter] + qi.1,
                                        seq![BytecodeV::Exit],
                                    );
                                }
                                let tail = copy_span_from(span, 1);
                                match apply_del_rec(bc, &tail, del, dfrom + 1) {
                                    Err(e) => Err(e),
                                    Ok(out2) => {
                                        let ghost p = apply_del_s(
                                            span_dv(tail@),
                                            dvs.skip(1),
                                        )->Some_0;
                                        let node = DocNode::Group(copy_attrs(attrs), inner);
                                        let ghost o2 = out2@;
                                        let mut out: Vec<DocNode> = Vec::new();
                                        out.push(node);
                                        let mut out2 = out2;
                                        out.append(&mut out2);
                                        proof {
                                            assert(out@ =~= seq![node] + o2);
                                            lemma_span_dv_concat(seq![node], o2);
                                            lemma_span_dv_one(node);
                                            lemma_place_all_app(
                                                old(bc)@,
                                                seq![BytecodeV::Enter] + qi.1 + seq![
                                                    BytecodeV::Exit,
                                                ],
                                                p.1,
                                            );
                                        }
                                        Ok(out)
                                    },
                                }
                            },
                        }
                    },
                }
            },
            DelElement::DelGroup(ds) => {
                proof {
                    assert(del@.skip(dfrom as int)[0] == del@[dfrom as int]);
                    assert(decreases_to!(del@.skip(dfrom as int) => del@.skip(dfrom as int)[0]));
                    assert(decreases_to!(*ds => ds@));
                    assert(ds@.skip(0) =~= ds@);
                    assert(del_dv(ds@).skip(0) =~= del_dv(ds@));
                    assert(sv[0] == span@[0].dv());
                }
                match &span[0] {
                    DocNode::Run(_text, _styles) => Err(MalformedOperation),
                    DocNode::Group(_attrs, children) => {
                        bc.place(Bytecode::Enter);
                        proof {
                            lemma_place_all_one(old(bc)@, BytecodeV::Enter);
                        }
                        match apply_del_rec(bc, children, ds, 0) {
                            Err(e) => Err(e),
                            Ok(inner) => {
                                let ghost qi = apply_del_s(
                                    span_dv(children@),
                                    del_dv(ds@),
                                )->Some_0;
                                bc.place(Bytecode::Exit);
                                bc.place(Bytecode::UnwrapSelf);
                                proof {
                                    lemma_place_all_app(old(bc)@, seq![BytecodeV::Enter], qi.1);
                                    lemma_place_all_one(
                                        place_all_s(old(bc)@, seq![BytecodeV::Enter] + qi.1),
                                        BytecodeV::Exit,
                                    );
                                    lemma_place_all_one(
                                        place_all_s(
                                            old(bc)@,
                                            (seq![BytecodeV::Enter] + qi.1) + seq![
                                                BytecodeV::Exit,
                                            ],
                                        ),
                                        BytecodeV::UnwrapSelf,
                                    );
                                    lemma_place_all_app(
                                        old(bc)@,
                                        seq![BytecodeV::Enter] + qi.1,
                                        seq![BytecodeV::Exit],
                                    );
                                    lemma_place_all_app(
                                        old(bc)@,
                                        (seq![BytecodeV::Enter] + qi.1) + seq![BytecodeV::Exit],
                                        seq![BytecodeV::UnwrapSelf],
                                    );
                                    assert((seq![BytecodeV::Enter] + qi.1 + seq![
                                        BytecodeV::Exit,
                                    ]) + seq![BytecodeV::UnwrapSelf] =~= seq![BytecodeV::Enter]
                                        + qi.1 + seq![BytecodeV::Exit, BytecodeV::UnwrapSelf]);
                                }
                                let tail = copy_span_from(span, 1);
                                match apply_del_rec(bc, &tail, del, dfrom + 1) {
                                    Err(e) => Err(e),
                                    Ok(out2) => {
                                        let ghost p = apply_del_s(
                                            span_dv(tail@),
                                            dvs.skip(1),
                                        )->Some_0;
                                        let ghost o1 = inner@;
                                        let ghost o2 = out2@;
                                        let mut out = inner;
                                        let mut out2 = out2;
                                        out.append(&mut out2);
                                        proof {
                                            lemma_span_dv_concat(o1, o2);
                                            lemma_place_all_app(
                                                old(bc)@,
                                                seq![BytecodeV::Enter] + qi.1 + seq![
                                                    BytecodeV::Exit,
                                                    BytecodeV::UnwrapSelf,
                                                ],
                                                p.1,
                                            );
                                        }
                                        Ok(out)
                                    },
                                }
                            },
                        }
                    },
                }
            },
        }
    }
}

/// Applies the insertion program from instruction `afrom` on to the whole
/// of `span`, emitting the trace into `bc`; the second span returned holds
/// the leftover units that the program did not address.
fn apply_add_rec(bc: &mut Program, span: &Vec<DocNode>, add: &Vec<AddElement>, afrom: usize) -> (r:
    Result<(Vec<DocNode>, Vec<DocNode>), MalformedOperation>)
    requires
        afrom <= add@.len(),
    ensures
        ({
            let s = apply_add_s(span_dv(span@), add_dv(add@).skip(afrom as int));
            match r {
                Ok(p) => s matches Some(q) && span_dv(p.0@) == q.0 && span_dv(p.1@) == q.1
                    && final(bc)@ == place_all_s(old(bc)@, q.2),
                Err(_) => s is None,
            }
        }),
    decreases add@.skip(afrom as int), 0nat,
{
    let ghost sv = span_dv(span@);
    let ghost avs = add_dv(add@).skip(afrom as int);
    proof {
        lemma_span_dv_index(span@);
        lemma_add_dv_index(add@);
    }
    if afrom == add.len() {
        let out: Vec<DocNode> = Vec::new();
        let leftover = copy_span_from(span, 0);
        proof {
            assert(avs =~= Seq::<AddV>::empty());
            assert(span_dv(span@).skip(0) =~= sv);
            assert(span_dv(out@) == Seq::<DocNodeV>::empty());
            assert(place_all_s(old(bc)@, Seq::<BytecodeV>::empty()) == old(bc)@);
        }
        Ok((out, leftover))
    } else {
        proof {
            assert(avs[0] == add_dv(add@)[afrom as int]);
            assert(add_dv(add@)[afrom as int] == add@[afrom as int].dv());
            assert(decreases_to!(add@.skip(afrom as int) => add@.skip(afrom as int).skip(1)));
            assert(add@.skip(afrom as int).skip(1) =~= add@.skip(afrom as int + 1));
            assert(avs.skip(1) =~= add_dv(add@).skip(afrom as int + 1));
            assert(span_dv(span@).skip(0) =~= sv);
        }
        match &add[afrom] {
            AddElement::AddSkip(n) => {
                if span.len() == 0 {
                    Err(MalformedOperation)
                } else {
                    match skip_units(bc, span, 0, *n) {
                        Err(e) => Err(e),
                        Ok((out, rest)) => {
                            let ghost q = skip_units_s(sv, *n as nat)->Some_0;
                            match apply_add_rec(bc, &rest, add, afrom + 1) {
                                Err(e) => Err(e),
                                Ok((out2, leftover)) => {
                                    let ghost p = apply_add_s(
                                        span_dv(rest@),
                                        avs.skip(1),
                                    )->Some_0;
                                    let ghost o1 = out@;
                                    let ghost o2 = out2@;
                                    let mut out = out;
                                    let mut out2 = out2;
                                    out.append(&mut out2);
                                    proof {
                                        lemma_span_dv_concat(o1, o2);
                                        lemma_place_all_app(old(bc)@, q.2, p.2);
                                    }
                                    Ok((out, leftover))
                                },
                            }
                        },
                    }
                }
            },
            AddElement::AddStyles(n, styles) => {
                if span.len() == 0 {
                    Err(MalformedOperation)
                } else {
                    match style_units(bc, span, 0, *n, *styles, true) {
                        Err(e) => Err(e),
                        Ok((out, rest)) => {
                            let ghost q = style_units_s(sv, *n as nat, *styles, true)->Some_0;
                            match apply_add_rec(bc, &rest, add, afrom + 1) {
                                Err(e) => Err(e),
                                Ok((out2, leftover)) => {
                                    let ghost p = apply_add_s(
                                        span_dv(rest@),
                                        avs.skip(1),
                                    )->Some_0;
                                    let ghost o1 = out@;
                                    let ghost o2 = out2@;
                                    let mut out = out;
                                    let mut out2 = out2;
                                    out.append(&mut out2);
                                    proof {
                                        lemma_span_dv_concat(o1, o2);
                                        lemma_place_all_app(old(bc)@, q.2, p.2);
                                    }
                                    Ok((out, leftover))
                                },
                            }
                        },
                    }
                }
            },
            AddElement::AddChars(text) => {
                if text.len() == 0 {
                    apply_add_rec(bc, span, add, afrom + 1)
                } else {
                    bc.place(Bytecode::InsertString(copy_chars(text)));
                    let node = DocNode::Run(copy_chars(text), 0);
                    proof {
                        lemma_place_all_one(old(bc)@, BytecodeV::InsertString(text@));
                    }
                    match apply_add_rec(bc, span, add, afrom + 1) {
                        Err(e) => Err(e),
                        Ok((out2, leftover)) => {
                            let ghost p = apply_add_s(sv, avs.skip(1))->Some_0;
                            let ghost o2 = out2@;
                            let mut out: Vec<DocNode> = Vec::new();
                            out.push(node);
                            let mut out2 = out2;
                            out.append(&mut out2);
                            proof {
                                assert(out@ =~= seq![node] + o2);
                                lemma_span_dv_concat(seq![node], o2);
                                lemma_span_dv_one(node);
                                lemma_place_all_app(
                                    old(bc)@,
                                    seq![BytecodeV::InsertString(text@)],
                                    p.2,
                                );
                            }
                            Ok((out, leftover))
                        },
                    }
                }
            },
            AddElement::AddWithGroup(ins) => {
                proof {
                    assert(add@.skip(afrom as int)[0] == add@[afrom as int]);
                    assert(decreases_to!(add@.skip(afrom as int) => add@.skip(afrom as int)[0]));
                    assert(decreases_to!(*ins => ins@));
                }
                if span.len() == 0 {
                    Err(MalformedOperation)
                } else {
                    proof {
                        assert(sv[0] == span@[0].dv());
                    }
                    match &span[0] {
                        DocNode::Run(_text, _styles) => Err(MalformedOperation),
                        DocNode::Group(attrs, children) => {
                            bc.place(Bytecode::Enter);
                            proof {
                                lemma_place_all_one(old(bc)@, BytecodeV::Enter);
                            }
                            match apply_add_outer_fn(bc, children, ins) {
                                Err(e) => Err(e),
                                Ok(inner) => {
                                    let ghost qi = apply_add_outer_s(
                                        span_dv(children@),
                                        add_dv(ins@),
                                    )->Some_0;
                                    bc.place(Bytecode::Exit);
                                    proof {
                                        lemma_place_all_app(
                                            old(bc)@,
                                            seq![BytecodeV::Enter],
                                            qi.1,
                                        );
                                        lemma_place_all_one(
                                            place_all_s(old(bc)@, seq![BytecodeV::Enter] + qi.1),
                                            BytecodeV::Exit,
                                        );
                                        lemma_place_all_app(
                                            old(bc)@,
                                            seq![BytecodeV::Enter] + qi.1,
                                            seq![BytecodeV::Exit],
                                        );
                                    }
                                    let tail = copy_span_from(span, 1);
                                    match apply_add_rec(bc, &tail, add, afrom + 1) {
                                        Err(e) => Err(e),
                                        Ok((out2, leftover)) => {
                                            let ghost p = apply_add_s(
                                                span_dv(tail@),
                                                avs.skip(1),
                                            )->Some_0;
                                            let node = DocNode::Group(copy_attrs(attrs), inner);
                                            let ghost o2 = out2@;
                                            let mut out: Vec<DocNode> = Vec::new();
                                            out.push(node);
                                            let mut out2 = out2;
                                            out.append(&mut out2);
                                            proof {
                                                assert(out@ =~= seq![node] + o2);
                                                lemma_span_dv_concat(seq![node], o2);
                                                lemma_span_dv_one(node);
                                                lemma_place_all_app(
                                                    old(bc)@,
                                                    seq![BytecodeV::Enter] + qi.1 + seq![
                                                        BytecodeV::Exit,
                                                    ],
                                                    p.2,
                                                );
                                            }
                                            Ok((out, leftover))
                                        },
                                    }
                                },
                            }
                        },
                    }
                }
            },
            AddElement::AddGroup(attrs, ins) => {
                proof {
                    assert(add@.skip(afrom as int)[0] == add@[afrom as int]);
                    assert(decreases_to!(add@.skip(afrom as int) => add@.skip(afrom as int)[0]));
                    assert(decreases_to!(*ins => ins@));
                    assert(ins@.skip(0) =~= ins@);
                    assert(add_dv(ins@).skip(0) =~= add_dv(ins@));
                }
                match apply_add_rec(bc, span, ins, 0) {
                    Err(e) => Err(e),
                    Ok((inner, rest)) => {
                        let ghost q1 = apply_add_s(sv, add_dv(ins@))->Some_0;
                        match apply_add_rec(bc, &rest, add, afrom + 1) {
                            Err(e) => Err(e),
                            Ok((out2, leftover)) => {
                                let ghost p = apply_add_s(span_dv(rest@), avs.skip(1))->Some_0;
                                let count = inner.len();
                                proof {
                                    lemma_span_dv_index(inner@);
                                    lemma_place_all_app(old(bc)@, q1.2, p.2);
                                }
                                bc.place(Bytecode::WrapPrevious(count, copy_attrs(attrs)));
                                let node = DocNode::Group(copy_attrs(attrs), inner);
                                let ghost o2 = out2@;
                                let mut out: Vec<DocNode> = Vec::new();
                                out.push(node);
                                let mut out2 = out2;
                                out.append(&mut out2);
                                proof {
                                    assert(out@ =~= seq![node] + o2);
                                    lemma_span_dv_concat(seq![node], o2);
                                    lemma_span_dv_one(node);
                                    lemma_place_all_one(
                                        place_all_s(old(bc)@, q1.2 + p.2),
                                        BytecodeV::WrapPrevious(q1.0.len(), attrs@),
                                    );
                                    lemma_place_all_app(
                                        old(bc)@,
                                        q1.2 + p.2,
                                        seq![BytecodeV::WrapPrevious(q1.0.len(), attrs@)],
                                    );
                                }
                                Ok((out, leftover))
                            },
                        }
                    },
                }
            },
        }
    }
}

/// Applies an insertion program to a span and merges the leftover units
/// back onto the end of the output, unchanged.
fn apply_add_outer_fn(bc: &mut Program, span: &Vec<DocNode>, add: &Vec<AddElement>) -> (r: Result<
    Vec<DocNode>,
    MalformedOperation,
>)
    ensures
        ({
            let s = apply_add_outer_s(span_dv(span@), add_dv(add@));
            match r {
                Ok(out) => s matches Some(p) && span_dv(out@) == p.0 && final(bc)@ == place_all_s(
                    old(bc)@,
                    p.1,
                ),
                Err(_) => s is None,
            }
        }),
    decreases add@, 1nat,
{
    proof {
        assert(add@.skip(0) =~= add@);
        assert(add_dv(add@).skip(0) =~= add_dv(add@));
    }
    match apply_add_rec(bc, span, add, 0) {
        Err(e) => Err(e),
        Ok((out, leftover)) => {
            let ghost o1 = out@;
            let ghost o2 = leftover@;
            let mut out = out;
            let mut leftover = leftover;
            out.append(&mut leftover);
            proof {
                lemma_span_dv_concat(o1, o2);
            }
            Ok(out)
        },
    }
}

/// Applies an insertion program to a document span, returning the new
/// span; leftover units not addressed by the program are appended to it
/// unchanged.  Fails exactly when the operation is malformed against the
/// span.
pub fn apply_add(spanvec: &Vec<DocNode>, addvec: &Vec<AddElement>) -> (r: Result<
    Vec<DocNode>,
    MalformedOperation,
>)
    ensures
        ({
            let s = apply_add_outer_s(span_dv(spanvec@), add_dv(addvec@));
            match r {
                Ok(out) => s matches Some(p) && span_dv(out@) == p.0,
                Err(_) => s is None,
            }
        }),
{
    let mut bc = Program::new();
    apply_add_outer_fn(&mut bc, spanvec, addvec)
}

/// Applies an insertion program, returning both the new span and the
/// coalesced trace program that a renderer replays to mirror it.
pub fn apply_add_bc(spanvec: &Vec<DocNode>, addvec: &Vec<AddElement>) -> (r: Result<
    (Vec<DocNode>, Program),
    MalformedOperation,
>)
    ensures
        ({
            let s = apply_add_outer_s(span_dv(spanvec@), add_dv(addvec@));
            match r {
                Ok(p) => s matches Some(q) && span_dv(p.0@) == q.0 && p.1@ == place_all_s(
                    Seq::<BytecodeV>::empty(),
                    q.1,
                ),
                Err(_) => s is None,
            }
        }),
{
    let mut bc = Program::new();
    match apply_add_outer_fn(&mut bc, spanvec, addvec) {
        Err(e) => Err(e),
        Ok(out) => Ok((out, bc)),
    }
}

/// Applies a deletion program to a document span, returning the new span.
/// Fails exactly when the operation is malformed against the span.
pub fn apply_delete(spanvec: &Vec<DocNode>, delvec: &Vec<DelElement>) -> (r: Result<
    Vec<DocNode>,
    MalformedOperation,
>)
    ensures
        ({
            let s = apply_del_s(span_dv(spanvec@), del_dv(delvec@));
            match r {
                Ok(out) => s matches Some(p) && span_dv(out@) == p.0,
                Err(_) => s is None,
            }
        }),
{
    let mut bc = Program::new();
    proof {
        assert(del_dv(delvec@).skip(0) =~= del_dv(delvec@));
    }
    apply_del_rec(&mut bc, spanvec, delvec, 0)
}

/// Applies a deletion program, returning both the new span and the
/// coalesced trace program that a renderer replays to mirror it.
pub fn apply_del_bc(spanvec: &Vec<DocNode>, delvec: &Vec<DelElement>) -> (r: Result<
    (Vec<DocNode>, Program),
    MalformedOperation,
>)
    ensures
        ({
            let s = apply_del_s(span_dv(spanvec@), del_dv(delvec@));
            match r {
                Ok(p) => s matches Some(q) && span_dv(p.0@) == q.0 && p.1@ == place_all_s(
                    Seq::<BytecodeV>::empty(),
                    q.1,
                ),
                Err(_) => s is None,
            }
        }),
{
    let mut bc = Program::new();
    proof {
        assert(del_dv(delvec@).skip(0) =~= del_dv(delvec@));
    }
    match apply_del_rec(&mut bc, spanvec, delvec, 0) {
        Err(e) => Err(e),
        Ok(out) => Ok((out, bc)),
    }
}

/// Applies a full operation and returns the two trace programs, in the
/// order a renderer must replay them: the deletion trace, then the
/// insertion trace against the intermediate document.
pub fn apply_op_bc(spanvec: &Vec<DocNode>, op: &Op) -> (r: Result<
    Vec<Program>,
    MalformedOperation,
>)
    ensures
        ({
            let s = apply_del_s(span_dv(spanvec@), del_dv(op.0@));
            match r {
                Ok(progs) => s matches Some(q) && ({
                    let s2 = apply_add_outer_s(q.0, add_dv(op.1@));
                    s2 matches Some(p) && progs@.len() == 2 && progs@[0]@ == place_all_s(
                        Seq::<BytecodeV>::empty(),
                        q.1,
                    ) && progs@[1]@ == place_all_s(Seq::<BytecodeV>::empty(), p.1)
                }),
                Err(_) => apply_op_s(span_dv(spanvec@), del_dv(op.0@), add_dv(op.1@)) is None,
            }
        }),
{
    match apply_del_bc(spanvec, &op.0) {
        Err(e) => Err(e),
        Ok((postdel, del_program)) => match apply_add_bc(&postdel, &op.1) {
            Err(e) => Err(e),
            Ok((_postadd, add_program)) => {
                let mut progs: Vec<Program> = Vec::new();
                progs.push(del_program);
                progs.push(add_program);
                Ok(progs)
            },
        },
    }
}

/// Applies a full operation: the deletion program against the document,
/// then the insertion program against the intermediate result.  Fails
/// exactly when either phase is malformed against the span it runs on.
pub fn apply_operation(spanvec: &Vec<DocNode>, op: &Op) -> (r: Result<
    Vec<DocNode>,
    MalformedOperation,
>)
    ensures
        ({
            let s = apply_op_s(span_dv(spanvec@), del_dv(op.0@), add_dv(op.1@));
            match r {
                Ok(out) => s matches Some(o) && span_dv(out@) == o,
                Err(_) => s is None,
            }
        }),
{
    match apply_delete(spanvec, &op.0) {
        Err(e) => Err(e),
        Ok(postdel) => apply_add(&postdel, &op.1),
    }
}

} // verus!
