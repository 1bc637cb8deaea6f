//! The meaning of the two engines: recursive functions over ghost views
//! that define, for every document span and every operation program, the
//! resulting span (or the malformed-operation failure) and the raw trace
//! emitted, before coalescing.

use vstd::prelude::*;
use crate::doc::AddV;
use crate::doc::DelV;
use crate::doc::DocNodeV;
use crate::trace::BytecodeV;

verus! {

/// Retains `n` units from the front of a span: runs are counted and split
/// per character, a group counts as one unit, and a count of zero retains
/// nothing.  Yields the retained output, the remaining span and the raw
/// trace, or fails when the span is exhausted first.
pub open spec fn skip_units_s(span: Seq<DocNodeV>, n: nat) -> Option<
    (Seq<DocNodeV>, Seq<DocNodeV>, Seq<BytecodeV>),
>
    decreases span,
{
    if n == 0 {
        Some((Seq::empty(), span, Seq::empty()))
    } else if span.len() == 0 {
        None
    } else {
        match span[0] {
            DocNodeV::Run(text, styles) => if text.len() < n {
                match skip_units_s(span.skip(1), (n - text.len()) as nat) {
                    Option::None => None,
                    Option::Some((out, rest, tr)) => Some(
                        (
                            seq![DocNodeV::Run(text, styles)] + out,
                            rest,
                            seq![BytecodeV::AdvanceElements(1)] + tr,
                        ),
                    ),
                }
            } else if text.len() > n {
                Some(
                    (
                        seq![DocNodeV::Run(text.take(n as int), styles)],
                        seq![DocNodeV::Run(text.skip(n as int), styles)] + span.skip(1),
                        seq![
                            BytecodeV::DeleteElements(1),
                            BytecodeV::InsertString(text.take(n as int)),
                        ],
                    ),
                )
            } else {
                Some(
                    (
                        seq![DocNodeV::Run(text, styles)],
                        span.skip(1),
                        seq![BytecodeV::AdvanceElements(1)],
                    ),
                )
            },
            DocNodeV::Group(attrs, children) => if n > 1 {
                match skip_units_s(span.skip(1), (n - 1) as nat) {
                    Option::None => None,
                    Option::Some((out, rest, tr)) => Some(
                        (
                            seq![DocNodeV::Group(attrs, children)] + out,
                            rest,
                            seq![BytecodeV::AdvanceElements(1)] + tr,
                        ),
                    ),
                }
            } else {
                Some(
                    (
                        seq![DocNodeV::Group(attrs, children)],
                        span.skip(1),
                        seq![BytecodeV::AdvanceElements(1)],
                    ),
                )
            },
        }
    }
}

/// Restyles the next `n` character units of a span: their style sets gain
/// the given styles (`add` true) or lose them (`add` false).  Only runs are
/// valid here; a group, or an exhausted span, is a malformed operation.
pub open spec fn style_units_s(span: Seq<DocNodeV>, n: nat, styles: u64, add: bool) -> Option<
    (Seq<DocNodeV>, Seq<DocNodeV>, Seq<BytecodeV>),
>
    decreases span,
{
    if n == 0 {
        Some((Seq::empty(), span, Seq::empty()))
    } else if span.len() == 0 {
        None
    } else {
        match span[0] {
            DocNodeV::Run(text, st) => {
                let ns = if add {
                    st | styles
                } else {
                    st & !styles
                };
                if text.len() < n {
                    match style_units_s(span.skip(1), (n - text.len()) as nat, styles, add) {
                        Option::None => None,
                        Option::Some((out, rest, tr)) => Some(
                            (
                                seq![DocNodeV::Run(text, ns)] + out,
                                rest,
                                seq![
                                    BytecodeV::DeleteElements(1),
                                    BytecodeV::InsertString(text),
                                ] + tr,
                            ),
                        ),
                    }
                } else if text.len() > n {
                    Some(
                        (
                            seq![DocNodeV::Run(text.take(n as int), ns)],
                            seq![DocNodeV::Run(text.skip(n as int), st)] + span.skip(1),
                            seq![
                                BytecodeV::DeleteElements(1),
                                BytecodeV::InsertString(text.take(n as int)),
                            ],
                        ),
                    )
                } else {
                    Some(
                        (
                            seq![DocNodeV::Run(text, ns)],
                            span.skip(1),
                            seq![BytecodeV::DeleteElements(1), BytecodeV::InsertString(text)],
                        ),
                    )
                }
            },
            DocNodeV::Group(_attrs, _children) => None,
        }
    }
}

/// Removes the next `n` characters of a span, producing no document
/// output; the trace deletes each consumed run, re-inserting the kept
/// tail of a run the count ends inside.  Only runs are valid here; a
/// group, or an exhausted span, is a malformed operation.
pub open spec fn del_chars_s(span: Seq<DocNodeV>, n: nat) -> Option<
    (Seq<DocNodeV>, Seq<BytecodeV>),
>
    decreases span,
{
    if n == 0 {
        Some((span, Seq::empty()))
    } else if span.len() == 0 {
        None
    } else {
        match span[0] {
            DocNodeV::Run(text, st) => if text.len() < n {
                match del_chars_s(span.skip(1), (n - text.len()) as nat) {
                    Option::None => None,
                    Option::Some((rest, tr)) => Some(
                        (rest, seq![BytecodeV::DeleteElements(1)] + tr),
                    ),
                }
            } else if text.len() > n {
                Some(
                    (
                        seq![DocNodeV::Run(text.skip(n as int), st)] + span.skip(1),
                        seq![
                            BytecodeV::DeleteElements(1),
                            BytecodeV::InsertString(text.skip(n as int)),
                        ],
                    ),
                )
            } else {
                Some((span.skip(1), seq![BytecodeV::DeleteElements(1)]))
            },
            DocNodeV::Group(_attrs, _children) => None,
        }
    }
}

/// Applies a deletion program to a span: the resulting span and the raw
/// trace, or the malformed-operation failure.  A span that runs out while
/// instructions remain is always malformed; instructions that run out
/// leave the remaining units unchanged.
pub open spec fn apply_del_s(span: Seq<DocNodeV>, del: Seq<DelV>) -> Option<
    (Seq<DocNodeV>, Seq<BytecodeV>),
>
    decreases del,
{
    if del.len() == 0 {
        Some((span, Seq::empty()))
    } else if span.len() == 0 {
        None
    } else {
        match del[0] {
            DelV::DelSkip(n) => match skip_units_s(span, n) {
                Option::None => None,
                Option::Some((out, rest, tr)) => match apply_del_s(rest, del.skip(1)) {
                    Option::None => None,
                    Option::Some((out2, tr2)) => Some((out + out2, tr + tr2)),
                },
            },
            DelV::DelStyles(n, styles) => match style_units_s(span, n, styles, false) {
                Option::None => None,
                Option::Some((out, rest, tr)) => match apply_del_s(rest, del.skip(1)) {
                    Option::None => None,
                    Option::Some((out2, tr2)) => Some((out + out2, tr + tr2)),
                },
            },
            DelV::DelChars(n) => match del_chars_s(span, n) {
                Option::None => None,
                Option::Some((rest, tr)) => match apply_del_s(rest, del.skip(1)) {
                    Option::None => None,
                    Option::Some((out2, tr2)) => Some((out2, tr + tr2)),
                },
            },
            DelV::DelWithGroup(ds) => match span[0] {
                DocNodeV::Group(attrs, children) => match apply_del_s(children, ds) {
                    Option::None => None,
                    Option::Some((inner, tri)) => match apply_del_s(span.skip(1), del.skip(1)) {
                        Option::None => None,
                        Option::Some((out2, tr2)) => Some(
                            (
                                seq![DocNodeV::Group(attrs, inner)] + out2,
                                seq![BytecodeV::Enter] + tri + seq![BytecodeV::Exit] + tr2,
                            ),
                        ),
                    },
                },
                DocNodeV::Run(_text, _styles) => None,
            },
            DelV::DelGroup(ds) => match span[0] {
                DocNodeV::Group(_attrs, children) => match apply_del_s(children, ds) {
                    Option::None => None,
                    Option::Some((inner, tri)) => match apply_del_s(span.skip(1), del.skip(1)) {
                        Option::None => None,
                        Option::Some((out2, tr2)) => Some(
                            (
                                inner + out2,
                                seq![BytecodeV::Enter] + tri + seq![
                                    BytecodeV::Exit,
                                    BytecodeV::UnwrapSelf,
                                ] + tr2,
                            ),
                        ),
                    },
                },
                DocNodeV::Run(_text, _styles) => None,
            },
        }
    }
}

/// Applies an insertion program to a span: the produced output, the
/// leftover units that the program did not address, and the raw trace, or
/// the malformed-operation failure.  Only instructions that need a
/// document unit fail on an exhausted span; inserted text may legally run
/// past the end of the document.
pub open spec fn apply_add_s(span: Seq<DocNodeV>, add: Seq<AddV>) -> Option<
    (Seq<DocNodeV>, Seq<DocNodeV>, Seq<BytecodeV>),
>
    decreases add, 0nat,
{
    if add.len() == 0 {
        Some((Seq::empty(), span, Seq::empty()))
    } else {
        match add[0] {
            AddV::AddSkip(n) => if span.len() == 0 {
                None
            } else {
                match skip_units_s(span, n) {
                    Option::None => None,
                    Option::Some((out, rest, tr)) => match apply_add_s(rest, add.skip(1)) {
                        Option::None => None,
                        Option::Some((out2, leftover, tr2)) => Some(
                            (out + out2, leftover, tr + tr2),
                        ),
                    },
                }
            },
            AddV::AddStyles(n, styles) => if span.len() == 0 {
                None
            } else {
                match style_units_s(span, n, styles, true) {
                    Option::None => None,
                    Option::Some((out, rest, tr)) => match apply_add_s(rest, add.skip(1)) {
                        Option::None => None,
                        Option::Some((out2, leftover, tr2)) => Some(
                            (out + out2, leftover, tr + tr2),
                        ),
                    },
                }
            },
            AddV::AddChars(text) => if text.len() == 0 {
                apply_add_s(span, add.skip(1))
            } else {
                match apply_add_s(span, add.skip(1)) {
                    Option::None => None,
                    Option::Some((out2, leftover, tr2)) => Some(
                        (
                            seq![DocNodeV::Run(text, 0)] + out2,
                            leftover,
                            seq![BytecodeV::InsertString(text)] + tr2,
                        ),
                    ),
                }
            },
            AddV::AddWithGroup(ins) => if span.len() == 0 {
                None
            } else {
                match span[0] {
                    DocNodeV::Group(attrs, children) => match apply_add_outer_s(children, ins) {
                        Option::None => None,
                        Option::Some((inner, tri)) => match apply_add_s(
                            span.skip(1),
                            add.skip(1),
                        ) {
                            Option::None => None,
                            Option::Some((out2, leftover, tr2)) => Some(
                                (
                                    seq![DocNodeV::Group(attrs, inner)] + out2,
                                    leftover,
                                    seq![BytecodeV::Enter] + tri + seq![BytecodeV::Exit] + tr2,
                                ),
                            ),
                        },
                    },
                    DocNodeV::Run(_text, _styles) => None,
                }
            },
            AddV::AddGroup(attrs, ins) => match apply_add_s(span, ins) {
                Option::None => None,
                Option::Some((inner, rest, tr1)) => match apply_add_s(rest, add.skip(1)) {
                    Option::None => None,
                    Option::Some((out2, leftover, tr2)) => Some(
                        (
                            seq![DocNodeV::Group(attrs, inner)] + out2,
                            leftover,
                            tr1 + tr2 + seq![BytecodeV::WrapPrevious(inner.len(), attrs)],
                        ),
                    ),
                },
            },
        }
    }
}

/// Applies an insertion program and merges the leftover units back onto
/// the end of the output, unchanged.
pub open spec fn apply_add_outer_s(span: Seq<DocNodeV>, add: Seq<AddV>) -> Option<
    (Seq<DocNodeV>, Seq<BytecodeV>),
>
    decreases add, 1nat,
{
    match apply_add_s(span, add) {
        Option::None => None,
        Option::Some((out, leftover, tr)) => Some((out + leftover, tr)),
    }
}

/// Applies a full operation: the deletion program first, then the
/// insertion program against the intermediate document.
pub open spec fn apply_op_s(span: Seq<DocNodeV>, del: Seq<DelV>, add: Seq<AddV>) -> Option<
    Seq<DocNodeV>,
>{
    match apply_del_s(span, del) {
        Option::None => None,
        Option::Some((mid, _tr)) => match apply_add_outer_s(mid, add) {
            Option::None => None,
            Option::Some((out, _tr2)) => Some(out),
        },
    }
}

} // verus!
