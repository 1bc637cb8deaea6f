//! The edit-trace program: an append-only instruction log whose single
//! mutator coalesces an appended instruction into a mergeable tail entry.

use vstd::prelude::*;
use crate::doc::Attrs;

verus! {

/// One low-level edit-trace instruction, consumed by a rendering layer.
#[derive(Debug, PartialEq, Eq)]
pub enum Bytecode {
    /// Descend one tree level, into the group at the live cursor.
    Enter,
    /// Ascend one tree level.
    Exit,
    /// Move the live cursor past `count` untouched units.
    AdvanceElements(usize),
    /// Remove `count` units at the live cursor.
    DeleteElements(usize),
    /// Insert literal text at the live cursor.
    InsertString(Vec<char>),
    /// Wrap the most recent `count` sibling outputs into a new group.
    WrapPrevious(usize, Attrs),
    /// Remove the enclosing group, splicing its children into the parent.
    UnwrapSelf,
}

/// Ghost view of a trace instruction.
pub enum BytecodeV {
    Enter,
    Exit,
    AdvanceElements(nat),
    DeleteElements(nat),
    InsertString(Seq<char>),
    WrapPrevious(nat, Seq<(u64, u64)>),
    UnwrapSelf,
}

impl Bytecode {
    /// The ghost view of this instruction.
    pub open spec fn dv(self) -> BytecodeV {
        match self {
            Bytecode::Enter => BytecodeV::Enter,
            Bytecode::Exit => BytecodeV::Exit,
            Bytecode::AdvanceElements(n) => BytecodeV::AdvanceElements(n as nat),
            Bytecode::DeleteElements(n) => BytecodeV::DeleteElements(n as nat),
            Bytecode::InsertString(text) => BytecodeV::InsertString(text@),
            Bytecode::WrapPrevious(n, attrs) => BytecodeV::WrapPrevious(n as nat, attrs@),
            Bytecode::UnwrapSelf => BytecodeV::UnwrapSelf,
        }
    }
}

/// The ghost view of a trace instruction list.
pub open spec fn bcs_dv(s: Seq<Bytecode>) -> Seq<BytecodeV>
    decreases s,
{
    if s.len() == 0 {
        Seq::empty()
    } else {
        seq![s[0].dv()] + bcs_dv(s.skip(1))
    }
}

/// A trace list's view has one entry per instruction.
pub proof fn lemma_bcs_dv_index(s: Seq<Bytecode>)
    ensures
        bcs_dv(s).len() == s.len(),
        forall|i: int| 0 <= i < s.len() ==> bcs_dv(s)[i] == #[trigger] s[i].dv(),
    decreases s,
{
    if s.len() > 0 {
        lemma_bcs_dv_index(s.skip(1));
        assert forall|i: int| 0 <= i < s.len() implies bcs_dv(s)[i] == #[trigger] s[i].dv() by {
            if i > 0 {
                assert(s.skip(1)[i - 1] == s[i]);
            }
        }
    }
}

/// Appending one instruction with coalescing: an instruction of the same
/// mergeable kind as the tail entry is folded into it (counts summed, text
/// concatenated), except where the summed count would not fit in `usize`;
/// any other instruction is appended as a new entry.
pub open spec fn place_s(p: Seq<BytecodeV>, c: BytecodeV) -> Seq<BytecodeV> {
    if p.len() > 0 {
        match (p.last(), c) {
            (BytecodeV::AdvanceElements(a), BytecodeV::AdvanceElements(b)) => if a + b
                <= usize::MAX as nat {
                p.update(p.len() - 1, BytecodeV::AdvanceElements(a + b))
            } else {
                p.push(c)
            },
            (BytecodeV::DeleteElements(a), BytecodeV::DeleteElements(b)) => if a + b
                <= usize::MAX as nat {
                p.update(p.len() - 1, BytecodeV::DeleteElements(a + b))
            } else {
                p.push(c)
            },
            (BytecodeV::InsertString(s1), BytecodeV::InsertString(s2)) => p.update(
                p.len() - 1,
                BytecodeV::InsertString(s1 + s2),
            ),
            _ => p.push(c),
        }
    } else {
        p.push(c)
    }
}

/// Appending a list of instructions in order, each with coalescing.
pub open spec fn place_all_s(p: Seq<BytecodeV>, cs: Seq<BytecodeV>) -> Seq<BytecodeV>
    decreases cs.len(),
{
    if cs.len() == 0 {
        p
    } else {
        place_all_s(place_s(p, cs[0]), cs.skip(1))
    }
}

/// The view of a trace list commutes with appending an instruction.
pub proof fn lemma_bcs_dv_push(s: Seq<Bytecode>, x: Bytecode)
    ensures
        bcs_dv(s.push(x)) == bcs_dv(s).push(x.dv()),
{
    lemma_bcs_dv_index(s);
    lemma_bcs_dv_index(s.push(x));
    assert forall|i: int| 0 <= i < s.len() + 1 implies bcs_dv(s.push(x))[i] == bcs_dv(s).push(
        x.dv(),
    )[i] by {
        assert(bcs_dv(s.push(x))[i] == s.push(x)[i].dv());
        if i < s.len() {
            assert(s.push(x)[i] == s[i]);
            assert(bcs_dv(s)[i] == s[i].dv());
        } else {
            assert(s.push(x)[i] == x);
        }
    }
    assert(bcs_dv(s.push(x)) =~= bcs_dv(s).push(x.dv()));
}

/// The view of a trace list commutes with keeping a prefix.
pub proof fn lemma_bcs_dv_take(s: Seq<Bytecode>, k: int)
    requires
        0 <= k <= s.len(),
    ensures
        bcs_dv(s.take(k)) == bcs_dv(s).take(k),
{
    lemma_bcs_dv_index(s);
    lemma_bcs_dv_index(s.take(k));
    assert forall|i: int| 0 <= i < k implies bcs_dv(s.take(k))[i] == bcs_dv(s).take(k)[i] by {
        assert(s.take(k)[i] == s[i]);
        assert(bcs_dv(s.take(k))[i] == s.take(k)[i].dv());
        assert(bcs_dv(s)[i] == s[i].dv());
    }
    assert(bcs_dv(s.take(k)) =~= bcs_dv(s).take(k));
}

/// Placing a concatenation equals placing its parts in order.
pub proof fn lemma_place_all_app(p: Seq<BytecodeV>, a: Seq<BytecodeV>, b: Seq<BytecodeV>)
    ensures
        place_all_s(p, a + b) == place_all_s(place_all_s(p, a), b),
    decreases a.len(),
{
    if a.len() == 0 {
        assert(a + b =~= b);
    } else {
        assert((a + b)[0] == a[0]);
        assert((a + b).skip(1) =~= a.skip(1) + b);
        lemma_place_all_app(place_s(p, a[0]), a.skip(1), b);
    }
}

/// Placing a single instruction.
pub proof fn lemma_place_all_one(p: Seq<BytecodeV>, c: BytecodeV)
    ensures
        place_all_s(p, seq![c]) == place_s(p, c),
{
    assert(seq![c].skip(1) =~= Seq::<BytecodeV>::empty());
    assert(seq![c][0] == c);
    assert(place_all_s(place_s(p, c), Seq::<BytecodeV>::empty()) == place_s(p, c));
}

/// An edit-trace program under construction.  Its only mutator is
/// [`Program::place`], so no two adjacent mergeable entries ever appear,
/// with one machine-limit exception: where two counts would sum past
/// `usize::MAX`, `place` keeps them as two entries.
#[derive(Debug, PartialEq, Eq)]
pub struct Program(Vec<Bytecode>);

impl View for Program {
    type V = Seq<BytecodeV>;

    closed spec fn view(&self) -> Seq<BytecodeV> {
        bcs_dv(self.0@)
    }
}

impl Program {
    /// The empty program.
    pub fn new() -> (r: Program)
        ensures
            r@ == Seq::<BytecodeV>::empty(),
    {
        Program(Vec::new())
    }

    /// Appends an instruction, coalescing it into the tail entry when the
    /// two are of the same mergeable kind.
    pub fn place(&mut self, code: Bytecode)
        ensures
            final(self)@ == place_s(old(self)@, code.dv()),
    {
        let ghost p0 = self.0@;
        let ghost gcode = code;
        proof {
            lemma_bcs_dv_index(p0);
        }
        if self.0.len() == 0 {
            self.0.push(code);
            proof {
                lemma_bcs_dv_push(p0, gcode);
            }
        } else {
            let last = self.0.pop().unwrap();
            let ghost glast = last;
            let ghost popped = self.0@;
            proof {
                assert(popped == p0.take(p0.len() - 1));
                lemma_bcs_dv_take(p0, p0.len() - 1);
                assert(bcs_dv(p0).last() == glast.dv());
            }
            match (last, code) {
                (Bytecode::AdvanceElements(a), Bytecode::AdvanceElements(b)) => {
                    if a <= usize::MAX - b {
                        self.0.push(Bytecode::AdvanceElements(a + b));
                        proof {
                            lemma_bcs_dv_push(popped, Bytecode::AdvanceElements((a + b) as usize));
                            assert(bcs_dv(self.0@) =~= place_s(bcs_dv(p0), gcode.dv()));
                        }
                    } else {
                        self.0.push(Bytecode::AdvanceElements(a));
                        self.0.push(Bytecode::AdvanceElements(b));
                        proof {
                            lemma_bcs_dv_push(popped, Bytecode::AdvanceElements(a));
                            assert(popped.push(glast) =~= p0);
                            lemma_bcs_dv_push(p0, gcode);
                            assert(bcs_dv(self.0@) =~= place_s(bcs_dv(p0), gcode.dv()));
                        }
                    }
                },
                (Bytecode::DeleteElements(a), Bytecode::DeleteElements(b)) => {
                    if a <= usize::MAX - b {
                        self.0.push(Bytecode::DeleteElements(a + b));
                        proof {
                            lemma_bcs_dv_push(popped, Bytecode::DeleteElements((a + b) as usize));
                            assert(bcs_dv(self.0@) =~= place_s(bcs_dv(p0), gcode.dv()));
                        }
                    } else {
                        self.0.push(Bytecode::DeleteElements(a));
                        self.0.push(Bytecode::DeleteElements(b));
                        proof {
                            lemma_bcs_dv_push(popped, Bytecode::DeleteElements(a));
                            assert(popped.push(glast) =~= p0);
                            lemma_bcs_dv_push(p0, gcode);
                            assert(bcs_dv(self.0@) =~= place_s(bcs_dv(p0), gcode.dv()));
                        }
                    }
                },
                (Bytecode::InsertString(text), Bytecode::InsertString(more)) => {
                    let mut text = text;
                    let mut more = more;
                    let ghost t1 = text@;
                    let ghost m1 = more@;
                    text.append(&mut more);
                    self.0.push(Bytecode::InsertString(text));
                    proof {
                        lemma_bcs_dv_index(self.0@);
                        assert forall|i: int| 0 <= i < bcs_dv(self.0@).len() implies bcs_dv(
                            self.0@,
                        )[i] == place_s(bcs_dv(p0), gcode.dv())[i] by {
                            assert(bcs_dv(self.0@)[i] == self.0@[i].dv());
                            if i < popped.len() {
                                assert(self.0@[i] == popped[i]);
                                assert(bcs_dv(popped)[i] == popped[i].dv());
                            }
                        }
                        assert(bcs_dv(self.0@) =~= place_s(bcs_dv(p0), gcode.dv()));
                    }
                },
                (other_last, other_code) => {
                    self.0.push(other_last);
                    self.0.push(other_code);
                    proof {
                        lemma_bcs_dv_push(popped, glast);
                        assert(popped.push(glast) =~= p0);
                        lemma_bcs_dv_push(p0, gcode);
                        assert(bcs_dv(self.0@) =~= place_s(bcs_dv(p0), gcode.dv()));
                    }
                },
            }
        }
    }

    /// The instructions of the program, in order.
    pub fn codes(&self) -> (r: &Vec<Bytecode>)
        ensures
            bcs_dv(r@) == self@,
    {
        &self.0
    }
}

} // verus!
