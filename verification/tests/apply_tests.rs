use oatie::apply::apply_add;
use oatie::apply::apply_add_bc;
use oatie::apply::apply_del_bc;
use oatie::apply::apply_delete;
use oatie::apply::apply_op_bc;
use oatie::apply::apply_operation;
use oatie::doc::AddElement;
use oatie::doc::DelElement;
use oatie::doc::DocNode;
use oatie::doc::MalformedOperation;
use oatie::trace::Bytecode;
use oatie::trace::Program;

const BOLD: u64 = 0b1;
const ITALIC: u64 = 0b10;

fn run(text: &str, styles: u64) -> DocNode {
    DocNode::Run(text.chars().collect(), styles)
}

fn chars(text: &str) -> Vec<char> {
    text.chars().collect()
}

#[test]
fn round_trip_skip_and_descend_is_identity() {
    let doc = vec![run("ab", BOLD), DocNode::Group(vec![], vec![run("c", 0)])];
    let del = vec![
        DelElement::DelSkip(2),
        DelElement::DelWithGroup(vec![DelElement::DelSkip(1)]),
    ];
    let add = vec![
        AddElement::AddSkip(2),
        AddElement::AddWithGroup(vec![AddElement::AddSkip(1)]),
    ];
    let result = apply_operation(&doc, &(del, add)).unwrap();
    assert_eq!(result, doc);
}

#[test]
fn add_styles_is_idempotent() {
    let doc = vec![run("abcd", BOLD)];
    let op = vec![AddElement::AddStyles(2, ITALIC)];
    let once = apply_add(&doc, &op).unwrap();
    let twice = apply_add(&once, &op).unwrap();
    assert_eq!(once, vec![run("ab", BOLD | ITALIC), run("cd", BOLD)]);
    assert_eq!(twice, once);
}

#[test]
fn remove_styles_after_add_restores_original() {
    let doc = vec![run("abcd", BOLD)];
    let styled = apply_add(&doc, &vec![AddElement::AddStyles(2, ITALIC)]).unwrap();
    let restored = apply_delete(&styled, &vec![DelElement::DelStyles(2, ITALIC)]).unwrap();
    assert_eq!(restored, vec![run("ab", BOLD), run("cd", BOLD)]);
}

#[test]
fn split_preserves_styles_on_both_halves() {
    let doc = vec![run("abcdef", BOLD)];
    let add = vec![AddElement::AddSkip(3), AddElement::AddStyles(2, ITALIC)];
    let result = apply_add(&doc, &add).unwrap();
    assert_eq!(
        result,
        vec![run("abc", BOLD), run("de", BOLD | ITALIC), run("f", BOLD)]
    );
}

#[test]
fn group_wrap_scenario() {
    let doc = vec![run("x", 0), run("y", 0)];
    let add = vec![AddElement::AddGroup(
        vec![],
        vec![AddElement::AddSkip(2)],
    )];
    let result = apply_add(&doc, &add).unwrap();
    assert_eq!(
        result,
        vec![DocNode::Group(vec![], vec![run("x", 0), run("y", 0)])]
    );
    let (wrapped, program) = apply_add_bc(&doc, &add).unwrap();
    assert_eq!(wrapped, result);
    assert_eq!(
        *program.codes(),
        vec![
            Bytecode::AdvanceElements(2),
            Bytecode::WrapPrevious(2, vec![]),
        ]
    );
}

#[test]
fn group_unwrap_scenario() {
    let doc = vec![DocNode::Group(vec![], vec![run("a", 0)])];
    let del = vec![DelElement::DelGroup(vec![DelElement::DelSkip(1)])];
    let (result, program) = apply_del_bc(&doc, &del).unwrap();
    assert_eq!(result, vec![run("a", 0)]);
    assert_eq!(
        *program.codes(),
        vec![
            Bytecode::Enter,
            Bytecode::AdvanceElements(1),
            Bytecode::Exit,
            Bytecode::UnwrapSelf,
        ]
    );
}

#[test]
fn delete_overrun_is_fatal() {
    let doc = vec![run("ab", 0)];
    let del = vec![DelElement::DelChars(5)];
    assert_eq!(apply_delete(&doc, &del), Err(MalformedOperation));
}

#[test]
fn trace_advances_coalesce() {
    let mut program = Program::new();
    program.place(Bytecode::AdvanceElements(1));
    program.place(Bytecode::AdvanceElements(1));
    assert_eq!(*program.codes(), vec![Bytecode::AdvanceElements(2)]);
}

#[test]
fn trace_inserts_coalesce() {
    let mut program = Program::new();
    program.place(Bytecode::InsertString(chars("a")));
    program.place(Bytecode::InsertString(chars("b")));
    assert_eq!(*program.codes(), vec![Bytecode::InsertString(chars("ab"))]);
}

#[test]
fn trace_different_kinds_do_not_coalesce() {
    let mut program = Program::new();
    program.place(Bytecode::AdvanceElements(1));
    program.place(Bytecode::DeleteElements(1));
    program.place(Bytecode::DeleteElements(2));
    assert_eq!(
        *program.codes(),
        vec![Bytecode::AdvanceElements(1), Bytecode::DeleteElements(3)]
    );
}

#[test]
fn insert_chars_mid_run() {
    let doc = vec![run("ab", 0)];
    let add = vec![AddElement::AddSkip(1), AddElement::AddChars(chars("XY"))];
    let result = apply_add(&doc, &add).unwrap();
    assert_eq!(result, vec![run("a", 0), run("XY", 0), run("b", 0)]);
}

#[test]
fn insert_chars_past_end_is_legal() {
    let doc = vec![run("ab", 0)];
    let add = vec![AddElement::AddSkip(2), AddElement::AddChars(chars("c"))];
    let result = apply_add(&doc, &add).unwrap();
    assert_eq!(result, vec![run("ab", 0), run("c", 0)]);
}

#[test]
fn skip_past_end_is_fatal() {
    let doc = vec![run("ab", 0)];
    let add = vec![AddElement::AddSkip(3)];
    assert_eq!(apply_add(&doc, &add), Err(MalformedOperation));
}

#[test]
fn style_on_group_is_fatal() {
    let doc = vec![DocNode::Group(vec![], vec![run("a", 0)])];
    let add = vec![AddElement::AddStyles(1, BOLD)];
    assert_eq!(apply_add(&doc, &add), Err(MalformedOperation));
}

#[test]
fn descend_on_run_is_fatal() {
    let doc = vec![run("ab", 0)];
    let del = vec![DelElement::DelWithGroup(vec![DelElement::DelSkip(2)])];
    assert_eq!(apply_delete(&doc, &del), Err(MalformedOperation));
}

#[test]
fn pending_delete_on_exhausted_document_is_fatal() {
    let doc = vec![run("ab", 0)];
    let del = vec![DelElement::DelSkip(2), DelElement::DelChars(1)];
    assert_eq!(apply_delete(&doc, &del), Err(MalformedOperation));
}

#[test]
fn leftover_units_pass_through_unchanged() {
    let doc = vec![run("ab", 0), run("cd", BOLD)];
    let add = vec![AddElement::AddSkip(2)];
    let result = apply_add(&doc, &add).unwrap();
    assert_eq!(result, doc);
}

#[test]
fn delete_chars_merges_across_runs() {
    let doc = vec![run("ab", 0), run("cd", 0)];
    let del = vec![DelElement::DelChars(3)];
    let result = apply_delete(&doc, &del).unwrap();
    assert_eq!(result, vec![run("d", 0)]);
}

#[test]
fn skip_counts_a_group_as_one_unit() {
    let doc = vec![
        DocNode::Group(vec![(1, 2)], vec![run("a", 0)]),
        DocNode::Group(vec![], vec![]),
        run("z", 0),
    ];
    let del = vec![DelElement::DelSkip(2), DelElement::DelChars(1)];
    let result = apply_delete(&doc, &del).unwrap();
    assert_eq!(
        result,
        vec![
            DocNode::Group(vec![(1, 2)], vec![run("a", 0)]),
            DocNode::Group(vec![], vec![]),
        ]
    );
}

#[test]
fn character_counts_are_conserved() {
    let doc = vec![run("abcde", 0), DocNode::Group(vec![], vec![run("fg", 0)])];
    let del = vec![
        DelElement::DelChars(2),
        DelElement::DelSkip(3),
        DelElement::DelWithGroup(vec![DelElement::DelChars(1), DelElement::DelSkip(1)]),
    ];
    let result = apply_delete(&doc, &del).unwrap();
    assert_eq!(
        result,
        vec![run("cde", 0), DocNode::Group(vec![], vec![run("g", 0)])]
    );
}

#[test]
fn operation_runs_delete_then_insert() {
    let doc = vec![run("hello", 0)];
    let del = vec![DelElement::DelSkip(4), DelElement::DelChars(1)];
    let add = vec![AddElement::AddSkip(4), AddElement::AddChars(chars("p!"))];
    let result = apply_operation(&doc, &(del, add)).unwrap();
    assert_eq!(result, vec![run("hell", 0), run("p!", 0)]);
}

#[test]
fn operation_traces_come_in_replay_order() {
    let doc = vec![run("ab", 0)];
    let op = (
        vec![DelElement::DelChars(1), DelElement::DelSkip(1)],
        vec![AddElement::AddChars(chars("x")), AddElement::AddSkip(1)],
    );
    let programs = apply_op_bc(&doc, &op).unwrap();
    assert_eq!(programs.len(), 2);
    let (postdel, del_program) = apply_del_bc(&doc, &op.0).unwrap();
    assert_eq!(programs[0], del_program);
    assert_eq!(programs[1], apply_add_bc(&postdel, &op.1).unwrap().1);
}

#[test]
fn wrap_inside_existing_group() {
    let doc = vec![DocNode::Group(
        vec![(7, 7)],
        vec![run("a", 0), run("b", 0)],
    )];
    let add = vec![AddElement::AddWithGroup(vec![AddElement::AddGroup(
        vec![],
        vec![AddElement::AddSkip(2)],
    )])];
    let result = apply_add(&doc, &add).unwrap();
    assert_eq!(
        result,
        vec![DocNode::Group(
            vec![(7, 7)],
            vec![DocNode::Group(vec![], vec![run("a", 0), run("b", 0)])]
        )]
    );
}

#[test]
fn remove_styles_splits_at_count() {
    let doc = vec![run("abc", BOLD | ITALIC)];
    let del = vec![DelElement::DelStyles(1, ITALIC), DelElement::DelSkip(2)];
    let result = apply_delete(&doc, &del).unwrap();
    assert_eq!(result, vec![run("a", BOLD), run("bc", BOLD | ITALIC)]);
}

#[test]
fn insert_trace_is_an_insert() {
    let doc: Vec<DocNode> = vec![];
    let add = vec![AddElement::AddChars(chars("x"))];
    let (result, program) = apply_add_bc(&doc, &add).unwrap();
    assert_eq!(result, vec![run("x", 0)]);
    assert_eq!(*program.codes(), vec![Bytecode::InsertString(chars("x"))]);
}

#[test]
fn zero_skip_retains_nothing() {
    let doc = vec![run("ab", 0)];
    let add = vec![AddElement::AddSkip(0), AddElement::AddSkip(2)];
    let result = apply_add(&doc, &add).unwrap();
    assert_eq!(result, vec![run("ab", 0)]);
}

#[test]
fn zero_style_count_changes_nothing() {
    let doc = vec![run("ab", BOLD)];
    let add = vec![AddElement::AddStyles(0, ITALIC), AddElement::AddSkip(2)];
    let result = apply_add(&doc, &add).unwrap();
    assert_eq!(result, vec![run("ab", BOLD)]);
}

#[test]
fn empty_insert_text_adds_no_node() {
    let doc = vec![run("ab", 0)];
    let add = vec![AddElement::AddChars(chars("")), AddElement::AddSkip(2)];
    let result = apply_add(&doc, &add).unwrap();
    assert_eq!(result, vec![run("ab", 0)]);
}

#[test]
fn group_wrap_after_zero_skip() {
    let doc = vec![run("x", 0), run("y", 0)];
    let add = vec![
        AddElement::AddSkip(0),
        AddElement::AddGroup(vec![], vec![AddElement::AddSkip(2)]),
    ];
    let (result, program) = apply_add_bc(&doc, &add).unwrap();
    assert_eq!(
        result,
        vec![DocNode::Group(vec![], vec![run("x", 0), run("y", 0)])]
    );
    assert_eq!(
        *program.codes(),
        vec![
            Bytecode::AdvanceElements(2),
            Bytecode::WrapPrevious(2, vec![]),
        ]
    );
}

#[test]
fn delete_whole_run_traces_a_delete() {
    let doc = vec![run("ab", 0)];
    let del = vec![DelElement::DelChars(2)];
    let (result, program) = apply_del_bc(&doc, &del).unwrap();
    assert_eq!(result, vec![]);
    assert_eq!(*program.codes(), vec![Bytecode::DeleteElements(1)]);
}

#[test]
fn partial_character_delete_traces_the_kept_tail() {
    let doc = vec![run("ab", 0)];
    let del = vec![DelElement::DelChars(1), DelElement::DelSkip(1)];
    let (result, program) = apply_del_bc(&doc, &del).unwrap();
    assert_eq!(result, vec![run("b", 0)]);
    assert_eq!(
        *program.codes(),
        vec![
            Bytecode::DeleteElements(1),
            Bytecode::InsertString(chars("b")),
            Bytecode::AdvanceElements(1),
        ]
    );
}
