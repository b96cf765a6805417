use block_editor::backend_interface::mirror_step;
use block_editor::blocks::inline_blocks::text_block::{StringUTF16, TextBlock};
use block_editor::blocks::inline_blocks::{InlineBlock, InlineBlockType};
use block_editor::blocks::standard_blocks::content_block::ContentBlock;
use block_editor::blocks::standard_blocks::layout_block::LayoutBlock;
use block_editor::blocks::standard_blocks::list_block::ListBlock;
use block_editor::blocks::standard_blocks::{StandardBlock, StandardBlockType};
use block_editor::blocks::{Block, BlockMap, RootBlock};
use block_editor::mark::Mark;
use block_editor::new_ids::NewIds;
use block_editor::step::{AddParagraphAtBottomStep, PasteStep, ReplaceSlice, ReplaceStep, Step, TurnToChild};
use block_editor::steps_actualisor::{actualise_steps, CustomCopy};
use block_editor::steps_generator::event::{
    DropBlockEvent, Event, FormatBarEvent, Key, KeyPress, KeyPressMetadata, Side, SlashScrimEvent,
};
use block_editor::steps_generator::generate_steps;
use block_editor::steps_generator::selection::{remove_excess_from_selection, Selection, SubSelection};
use block_editor::utilities::{get_blocks_between, get_next_block_in_tree, get_previous_block_in_tree, BlockStructure, BlocksBetween, Tree};

fn inline(id: &str, text: &str, marks: Vec<Mark>, parent: &str) -> Block {
    Block::InlineBlock(InlineBlock {
        _id: id.to_string(),
        content: InlineBlockType::TextBlock(TextBlock(StringUTF16::from_str(text))),
        marks,
        parent: parent.to_string(),
    })
}

fn standard(id: &str, content: StandardBlockType, children: Vec<&str>, parent: &str) -> Block {
    Block::StandardBlock(StandardBlock {
        _id: id.to_string(),
        content,
        children: children.iter().map(|s| s.to_string()).collect(),
        parent: parent.to_string(),
        marks: vec![],
    })
}

fn paragraph(id: &str, inline_blocks: Vec<&str>, children: Vec<&str>, parent: &str) -> Block {
    let content = StandardBlockType::Paragraph(ContentBlock::new(inline_blocks.iter().map(|s| s.to_string()).collect()));
    standard(id, content, children, parent)
}

fn map_of(blocks: Vec<Block>) -> BlockMap {
    let mut m = BlockMap::new();
    let mut touched = vec![];
    for b in blocks {
        m.update_block(b, &mut touched).unwrap();
    }
    m
}

fn two_paragraphs() -> BlockMap {
    map_of(vec![
        Block::Root(RootBlock::from("root".to_string(), vec!["p1".to_string(), "p2".to_string()])),
        paragraph("p1", vec!["i1"], vec![], "root"),
        inline("i1", "hello", vec![], "p1"),
        paragraph("p2", vec!["i2"], vec![], "root"),
        inline("i2", "world", vec![], "p2"),
    ])
}

/// root -> [p1, p2]; p1 -> [c1]; p1 "one", c1 "two", p2 "three".
fn nested() -> BlockMap {
    map_of(vec![
        Block::Root(RootBlock::from("root".to_string(), vec!["p1".to_string(), "p2".to_string()])),
        paragraph("p1", vec!["i1"], vec!["c1"], "root"),
        inline("i1", "one", vec![], "p1"),
        paragraph("c1", vec!["j1"], vec![], "p1"),
        inline("j1", "two", vec![], "c1"),
        paragraph("p2", vec!["i2"], vec![], "root"),
        inline("i2", "three", vec![], "p2"),
    ])
}

fn text_of(m: &BlockMap, id: &str) -> String {
    m.get_inline_block(id).unwrap().text().unwrap().clone().to_string()
}

fn block_text(m: &BlockMap, std_id: &str) -> String {
    let b = m.get_standard_block(std_id).unwrap();
    b.content_block().unwrap().inline_blocks.iter().map(|id| text_of(m, id)).collect()
}

fn caret(id: &str, offset: usize) -> SubSelection {
    SubSelection::from(id.to_string(), offset, None)
}

fn layered(outer: &str, inner: &str, offset: usize) -> SubSelection {
    SubSelection::from(outer.to_string(), 0, Some(Box::new(caret(inner, offset))))
}

fn press(key: Key, shift: bool) -> Event {
    Event::KeyPress(KeyPress::new(
        key,
        Some(KeyPressMetadata { shift_down: shift, meta_down: false, ctrl_down: false, alt_down: false }),
    ))
}

fn run(event: Event, block_map: BlockMap, selection: Selection, ids: &mut NewIds) -> block_editor::steps_actualisor::UpdatedState {
    let steps = generate_steps(&event, &block_map, selection, &CustomCopy::new(), ids).unwrap();
    actualise_steps(steps, block_map, ids, CustomCopy::new()).unwrap()
}

#[test]
fn selection_across_two_paragraphs() {
    let m = two_paragraphs();
    let s = Selection::from_frontend_data("i1".to_string(), "i2".to_string(), 2, 3, &m, true).unwrap();
    assert_eq!(s.anchor, layered("p1", "i1", 2));
    assert_eq!(s.head, layered("p2", "i2", 3));
}

#[test]
fn selection_within_one_inline_block() {
    let m = two_paragraphs();
    let s = Selection::from_frontend_data("i1".to_string(), "i1".to_string(), 1, 4, &m, true).unwrap();
    assert_eq!(s.anchor, caret("i1", 1));
    assert_eq!(s.head, caret("i1", 4));
}

#[test]
fn selection_of_a_standard_block_alone() {
    let m = two_paragraphs();
    let s = Selection::from_frontend_data("p2".to_string(), "p2".to_string(), 0, 0, &m, false).unwrap();
    assert_eq!(s.anchor, caret("p2", 0));
    assert_eq!(s.head, caret("p2", 0));
}

#[test]
fn selection_from_missing_block_fails() {
    let m = two_paragraphs();
    assert!(Selection::from_frontend_data("zz".to_string(), "i1".to_string(), 0, 0, &m, true).is_err());
}

#[test]
fn selection_on_empty_block_counts_one_as_zero() {
    let m = map_of(vec![
        Block::Root(RootBlock::from("root".to_string(), vec!["p1".to_string()])),
        paragraph("p1", vec!["i1"], vec![], "root"),
        inline("i1", "", vec![], "p1"),
    ]);
    let s = Selection::from_frontend_data("i1".to_string(), "i1".to_string(), 1, 1, &m, true).unwrap();
    assert_eq!(s.anchor, caret("i1", 0));
    assert_eq!(s.head, caret("i1", 0));
}

#[test]
fn selection_into_a_nested_block_keeps_the_shared_parent() {
    let m = nested();
    let s = Selection::from_frontend_data("i1".to_string(), "j1".to_string(), 1, 2, &m, true).unwrap();
    assert_eq!(s.anchor, layered("p1", "i1", 1));
    assert_eq!(s.head.block_id, "p1");
    assert_eq!(s.head.count_layers(), 3);
    assert_eq!(s.head.get_deepest_subselection().block_id, "j1");
    assert_eq!(s.head.get_deepest_subselection().offset, 2);
}

#[test]
fn excess_layers_are_trimmed() {
    let m = nested();
    let a = SubSelection::from("p1".to_string(), 0, Some(Box::new(layered("c1", "j1", 0))));
    let h = SubSelection::from("p1".to_string(), 0, Some(Box::new(layered("c1", "j1", 2))));
    let s = remove_excess_from_selection(a, h, &m).unwrap();
    assert_eq!(s.anchor, caret("j1", 0));
    assert_eq!(s.head, caret("j1", 2));
}

#[test]
fn walking_the_document_in_order() {
    let m = nested();
    let p1 = m.get_standard_block("p1").unwrap();
    let c1 = m.get_standard_block("c1").unwrap();
    let p2 = m.get_standard_block("p2").unwrap();
    assert_eq!(get_next_block_in_tree(&p1, &m).unwrap()._id, "c1");
    assert_eq!(get_next_block_in_tree(&c1, &m).unwrap()._id, "p2");
    assert!(get_next_block_in_tree(&p2, &m).is_err());
    assert_eq!(get_previous_block_in_tree(&p2, &m).unwrap()._id, "c1");
    assert_eq!(get_previous_block_in_tree(&c1, &m).unwrap()._id, "p1");
    assert!(get_previous_block_in_tree(&p1, &m).is_err());
}

#[test]
fn backspace_inside_text_deletes_one_character() {
    let mut ids = NewIds::Rust(vec![]);
    let state = run(press(Key::Backspace, false), two_paragraphs(), Selection::from(caret("i1", 3), caret("i1", 3)), &mut ids);
    assert_eq!(text_of(&state.block_map, "i1"), "helo");
}

#[test]
fn backspace_at_start_joins_with_the_block_above() {
    let mut ids = NewIds::Rust(vec![]);
    let state = run(press(Key::Backspace, false), two_paragraphs(), Selection::from(caret("i2", 0), caret("i2", 0)), &mut ids);
    assert_eq!(state.block_map.get_root_block("root").unwrap().children, vec!["p1".to_string()]);
    assert_eq!(block_text(&state.block_map, "p1"), "helloworld");
}

#[test]
fn enter_splits_the_paragraph() {
    let mut ids = NewIds::Rust(vec!["a".to_string(), "b".to_string()]);
    let state = run(press(Key::Enter, false), two_paragraphs(), Selection::from(caret("i1", 2), caret("i1", 2)), &mut ids);
    let root = state.block_map.get_root_block("root").unwrap();
    assert_eq!(root.children.len(), 3);
    assert_eq!(root.children[0], "p1");
    assert_eq!(root.children[2], "p2");
    assert_eq!(block_text(&state.block_map, "p1"), "he");
    assert_eq!(block_text(&state.block_map, &root.children[1]), "llo");
    let selection = state.selection.unwrap();
    assert_eq!(selection.anchor.offset, 0);
    assert_eq!(selection.anchor, selection.head);
}

#[test]
fn tab_makes_a_child_and_shift_tab_undoes_it() {
    let mut ids = NewIds::Rust(vec![]);
    let state = run(press(Key::Tab, false), two_paragraphs(), Selection::from(caret("i2", 1), caret("i2", 1)), &mut ids);
    assert_eq!(state.block_map.get_root_block("root").unwrap().children, vec!["p1".to_string()]);
    assert_eq!(state.block_map.get_standard_block("p1").unwrap().children, vec!["p2".to_string()]);
    assert_eq!(state.block_map.get_standard_block("p2").unwrap().parent, "p1");
    let back = run(press(Key::Tab, true), state.block_map, Selection::from(caret("i2", 1), caret("i2", 1)), &mut ids);
    assert_eq!(back.block_map.get_root_block("root").unwrap().children, vec!["p1".to_string(), "p2".to_string()]);
    assert!(back.block_map.get_standard_block("p1").unwrap().children.is_empty());
    assert_eq!(back.block_map.get_standard_block("p2").unwrap().parent, "root");
}

#[test]
fn first_block_cannot_become_a_child() {
    let m = two_paragraphs();
    let mut ids = NewIds::Rust(vec![]);
    let step = Step::TurnToChild(TurnToChild { block_id: "p1".to_string() });
    assert!(actualise_steps(vec![step], m, &mut ids, CustomCopy::new()).is_err());
}

#[test]
fn dropping_a_block_below_another() {
    let m = two_paragraphs();
    let mut ids = NewIds::Rust(vec![]);
    let event = Event::DropBlock(DropBlockEvent {
        drag_block_id: "p1".to_string(),
        drop_block_id: "p2".to_string(),
        side_dropped: Side::Bottom,
    });
    let state = run(event, m, Selection::from(caret("i1", 0), caret("i1", 0)), &mut ids);
    assert_eq!(state.block_map.get_root_block("root").unwrap().children, vec!["p2".to_string(), "p1".to_string()]);
}

#[test]
fn adding_a_paragraph_at_the_bottom() {
    let m = two_paragraphs();
    let mut ids = NewIds::Rust(vec!["n2".to_string(), "n1".to_string()]);
    let step = Step::AddParagraphAtBottom(AddParagraphAtBottomStep {
        root_block_id: "root".to_string(),
        new_block_id: "n1".to_string(),
    });
    let state = actualise_steps(vec![step], m, &mut ids, CustomCopy::new()).unwrap();
    let root = state.block_map.get_root_block("root").unwrap();
    assert_eq!(root.children, vec!["p1".to_string(), "p2".to_string(), "n1".to_string()]);
    assert_eq!(block_text(&state.block_map, "n1"), "");
    assert_eq!(state.selection.unwrap().anchor, caret("n2", 0));
}

#[test]
fn turning_a_paragraph_into_a_heading() {
    let m = two_paragraphs();
    let mut ids = NewIds::Rust(vec![]);
    let event = Event::FormatBar(FormatBarEvent::from_value("turn_into(heading 1)").unwrap());
    let state = run(event, m, Selection::from(caret("i2", 2), caret("i2", 2)), &mut ids);
    let p2 = state.block_map.get_standard_block("p2").unwrap();
    assert!(matches!(p2.content, StandardBlockType::H1(_)));
    assert_eq!(block_text(&state.block_map, "p2"), "world");
}

#[test]
fn slash_command_without_a_slash_is_refused() {
    let m = two_paragraphs();
    let mut ids = NewIds::Rust(vec!["a".to_string(), "b".to_string()]);
    let event = Event::SlashScrim(SlashScrimEvent { block_type: "heading 1".to_string() });
    let selection = Selection::from(caret("i1", 3), caret("i1", 3));
    assert!(generate_steps(&event, &m, selection, &CustomCopy::new(), &mut ids).is_err());
}

#[test]
fn slash_command_adds_a_block_below() {
    let m = map_of(vec![
        Block::Root(RootBlock::from("root".to_string(), vec!["p1".to_string()])),
        paragraph("p1", vec!["i1"], vec![], "root"),
        inline("i1", "ab/he", vec![], "p1"),
    ]);
    let mut ids = NewIds::Rust(vec![]);
    let event = Event::SlashScrim(SlashScrimEvent { block_type: "heading 1".to_string() });
    let selection = Selection::from(caret("i1", 5), caret("i1", 5));
    let steps = generate_steps(&event, &m, selection, &CustomCopy::new(), &mut ids).unwrap();
    assert_eq!(steps.len(), 2);
    match &steps[0] {
        Step::ReplaceStep(r) => {
            assert_eq!(r.from, caret("i1", 2));
            assert_eq!(r.to, caret("i1", 5));
            assert_eq!(r.slice, ReplaceSlice::String("".to_string()));
        },
        _ => panic!("expected the command text to go"),
    }
    match &steps[1] {
        Step::AddBlock(a) => {
            assert_eq!(a.block_id, "root");
            assert_eq!(a.child_offset, 1);
            assert!(matches!(a.block_type, StandardBlockType::H1(_)));
        },
        _ => panic!("expected a new block"),
    }
}

#[test]
fn enter_on_an_empty_list_item_turns_it_into_a_paragraph() {
    let m = map_of(vec![
        Block::Root(RootBlock::from("root".to_string(), vec!["l1".to_string()])),
        standard(
            "l1",
            StandardBlockType::DotPointList(ListBlock { content: ContentBlock::new(vec!["i1".to_string()]), completed: false }),
            vec![],
            "root",
        ),
        inline("i1", "", vec![], "l1"),
    ]);
    let mut ids = NewIds::Rust(vec![]);
    let state = run(press(Key::Enter, false), m, Selection::from(caret("i1", 0), caret("i1", 0)), &mut ids);
    assert!(matches!(state.block_map.get_standard_block("l1").unwrap().content, StandardBlockType::Paragraph(_)));
}

#[test]
fn mirror_of_a_copy_leaves_the_document() {
    let m = two_paragraphs();
    let out = mirror_step(None, vec![], m).unwrap();
    assert_eq!(text_of(&out, "i1"), "hello");
    assert_eq!(out.get_root_block("root").unwrap().children, vec!["p1".to_string(), "p2".to_string()]);
}

#[test]
fn mirror_of_a_replace_step() {
    let m = two_paragraphs();
    let step = Step::ReplaceStep(ReplaceStep {
        block_id: "p1".to_string(),
        from: caret("i1", 5),
        to: caret("i1", 5),
        slice: ReplaceSlice::String("!".to_string()),
    });
    let out = mirror_step(Some(step), vec![], m).unwrap();
    assert_eq!(text_of(&out, "i1"), "hello!");
}

#[test]
fn removing_a_mark_that_every_selected_block_holds() {
    let m = map_of(vec![
        Block::Root(RootBlock::from("root".to_string(), vec!["p1".to_string()])),
        paragraph("p1", vec!["i1"], vec![], "root"),
        inline("i1", "bold", vec![Mark::Bold], "p1"),
    ]);
    let mut ids = NewIds::Rust(vec!["a".to_string(), "b".to_string()]);
    let event = Event::FormatBar(FormatBarEvent::Bold);
    let selection = Selection::from(caret("i1", 0), caret("i1", 4));
    let steps = generate_steps(&event, &m, selection, &CustomCopy::new(), &mut ids).unwrap();
    assert!(matches!(&steps[..], [Step::RemoveMarkStep(s)] if s.mark == Mark::Bold));
    let state = actualise_steps(steps, m, &mut ids, CustomCopy::new()).unwrap();
    let p1 = state.block_map.get_standard_block("p1").unwrap();
    for id in p1.content_block().unwrap().inline_blocks.iter() {
        assert!(state.block_map.get_inline_block(id).unwrap().marks.is_empty());
    }
    assert_eq!(block_text(&state.block_map, "p1"), "bold");
}

#[test]
fn delete_inside_text_removes_the_next_character() {
    let mut ids = NewIds::Rust(vec![]);
    let state = run(press(Key::Delete, false), two_paragraphs(), Selection::from(caret("i1", 1), caret("i1", 1)), &mut ids);
    assert_eq!(text_of(&state.block_map, "i1"), "hllo");
}

#[test]
fn delete_at_the_end_joins_the_block_below() {
    let mut ids = NewIds::Rust(vec![]);
    let state = run(press(Key::Delete, false), two_paragraphs(), Selection::from(caret("i1", 5), caret("i1", 5)), &mut ids);
    assert_eq!(state.block_map.get_root_block("root").unwrap().children, vec!["p1".to_string()]);
    assert_eq!(block_text(&state.block_map, "p1"), "helloworld");
}

#[test]
fn dropping_a_block_above_another() {
    let m = two_paragraphs();
    let mut ids = NewIds::Rust(vec![]);
    let event = Event::DropBlock(DropBlockEvent {
        drag_block_id: "p2".to_string(),
        drop_block_id: "p1".to_string(),
        side_dropped: Side::Top,
    });
    let state = run(event, m, Selection::from(caret("i1", 0), caret("i1", 0)), &mut ids);
    assert_eq!(state.block_map.get_root_block("root").unwrap().children, vec!["p2".to_string(), "p1".to_string()]);
}

#[test]
fn italic_shortcut_then_again_removes_it() {
    let mut ids = NewIds::Rust(vec!["a".to_string(), "b".to_string(), "c".to_string(), "d".to_string()]);
    let ctrl = KeyPressMetadata { shift_down: false, meta_down: true, ctrl_down: false, alt_down: false };
    let italic = Event::KeyPress(KeyPress::new(Key::Standard('i'), Some(ctrl)));
    let m = two_paragraphs();
    let steps = generate_steps(&italic, &m, Selection::from(caret("i2", 0), caret("i2", 5)), &CustomCopy::new(), &mut ids).unwrap();
    assert!(matches!(&steps[..], [Step::AddMarkStep(s)] if s.mark == Mark::Italic));
    let state = actualise_steps(steps, m, &mut ids, CustomCopy::new()).unwrap();
    assert_eq!(block_text(&state.block_map, "p2"), "world");
    let p2 = state.block_map.get_standard_block("p2").unwrap();
    let all: Vec<String> = p2.content_block().unwrap().inline_blocks.clone();
    let marked: Vec<&String> = all.iter().filter(|id| !text_of(&state.block_map, id).is_empty()).collect();
    for id in &marked {
        assert_eq!(state.block_map.get_inline_block(id).unwrap().marks, vec![Mark::Italic]);
    }
    let whole = marked[0].clone();
    let len = text_of(&state.block_map, &whole).encode_utf16().count();
    let again = generate_steps(&italic, &state.block_map, Selection::from(caret(&whole, 0), caret(&whole, len)), &CustomCopy::new(), &mut ids)
        .unwrap();
    assert!(matches!(&again[..], [Step::RemoveMarkStep(s)] if s.mark == Mark::Italic));
}

#[test]
fn typing_with_a_selection_across_blocks_joins_them() {
    let mut ids = NewIds::Rust(vec![]);
    let selection = Selection::from(layered("p1", "i1", 2), layered("p2", "i2", 3));
    let state = run(press(Key::Standard('Z'), false), two_paragraphs(), selection, &mut ids);
    assert_eq!(state.block_map.get_root_block("root").unwrap().children, vec!["p1".to_string()]);
    assert_eq!(block_text(&state.block_map, "p1"), "heZld");
}

fn std_of(b: Block) -> StandardBlock {
    match b {
        Block::StandardBlock(s) => s,
        _ => panic!("not a standard block"),
    }
}

fn paste(tree: Tree, at: SubSelection, m: BlockMap, ids: &mut NewIds) -> Result<block_editor::steps_actualisor::UpdatedState, block_editor::steps_generator::StepError> {
    let step = Step::Paste(PasteStep { from: at.copy(), to: at, copy_tree: tree });
    actualise_steps(vec![step], m, ids, CustomCopy::new())
}

#[test]
fn pasting_one_block_puts_its_text_at_the_caret() {
    let tree = Tree {
        top_blocks: vec![std_of(paragraph("p1", vec!["i1"], vec![], "root"))],
        block_map: map_of(vec![paragraph("p1", vec!["i1"], vec![], "root"), inline("i1", "hello", vec![], "p1")]),
    };
    let mut ids = NewIds::Rust(vec!["n3".to_string(), "n2".to_string(), "n1".to_string()]);
    let state = paste(tree, caret("i2", 2), two_paragraphs(), &mut ids).unwrap();
    assert_eq!(block_text(&state.block_map, "p2"), "wohellorld");
    assert_eq!(block_text(&state.block_map, "p1"), "hello");
    assert_eq!(state.block_map.get_root_block("root").unwrap().children, vec!["p1".to_string(), "p2".to_string()]);
    let selection = state.selection.unwrap();
    assert_eq!(selection.anchor.get_deepest_subselection().offset, 7);
    assert!(matches!(ids, NewIds::Rust(ref v) if v.is_empty()));
}

#[test]
fn pasting_two_blocks_puts_the_second_after_the_caret_block() {
    let tree = Tree {
        top_blocks: vec![
            std_of(paragraph("x1", vec!["xi1"], vec![], "old")),
            std_of(paragraph("x2", vec!["xi2"], vec![], "old")),
        ],
        block_map: map_of(vec![
            paragraph("x1", vec!["xi1"], vec![], "old"),
            inline("xi1", "AB", vec![], "x1"),
            paragraph("x2", vec!["xi2"], vec![], "old"),
            inline("xi2", "CD", vec![], "x2"),
        ]),
    };
    let mut ids = NewIds::hardcoded_new_ids_for_tests();
    let state = paste(tree, caret("i1", 5), two_paragraphs(), &mut ids).unwrap();
    assert_eq!(block_text(&state.block_map, "p1"), "helloAB");
    let children = state.block_map.get_root_block("root").unwrap().children;
    assert_eq!(children.len(), 3);
    assert_eq!(children[0], "p1");
    assert_eq!(children[2], "p2");
    assert_eq!(block_text(&state.block_map, &children[1]), "CD");
    assert_eq!(state.block_map.get_standard_block(&children[1]).unwrap().parent, "root");
    let selection = state.selection.unwrap();
    assert_eq!(selection.anchor.get_deepest_subselection().offset, 2);
}

#[test]
fn pasting_children_makes_them_children_of_the_caret_block() {
    let tree = Tree {
        top_blocks: vec![std_of(paragraph("x1", vec!["xi1"], vec!["y1"], "old"))],
        block_map: map_of(vec![
            paragraph("x1", vec!["xi1"], vec!["y1"], "old"),
            inline("xi1", "AB", vec![], "x1"),
            paragraph("y1", vec!["yi1"], vec![], "x1"),
            inline("yi1", "kid", vec![], "y1"),
        ]),
    };
    let mut ids = NewIds::hardcoded_new_ids_for_tests();
    let state = paste(tree, caret("i2", 0), two_paragraphs(), &mut ids).unwrap();
    assert_eq!(block_text(&state.block_map, "p2"), "ABworld");
    let p2 = state.block_map.get_standard_block("p2").unwrap();
    assert_eq!(p2.children.len(), 1);
    assert_eq!(block_text(&state.block_map, &p2.children[0]), "kid");
    assert_eq!(state.block_map.get_standard_block(&p2.children[0]).unwrap().parent, "p2");
}

#[test]
fn pasting_an_empty_clipboard_fails() {
    let tree = Tree { top_blocks: vec![], block_map: BlockMap::new() };
    let mut ids = NewIds::hardcoded_new_ids_for_tests();
    assert!(paste(tree, caret("i2", 0), two_paragraphs(), &mut ids).is_err());
}

#[test]
fn pasting_without_enough_fresh_ids_fails() {
    let tree = Tree {
        top_blocks: vec![std_of(paragraph("p1", vec!["i1"], vec![], "root"))],
        block_map: map_of(vec![paragraph("p1", vec!["i1"], vec![], "root"), inline("i1", "hello", vec![], "p1")]),
    };
    let mut ids = NewIds::Rust(vec!["n1".to_string()]);
    assert!(paste(tree, caret("i2", 2), two_paragraphs(), &mut ids).is_err());
}

#[test]
fn bold_across_two_paragraphs_adds_the_mark_until_all_of_it_is_bold() {
    let mut ids = NewIds::hardcoded_new_ids_for_tests();
    let event = Event::FormatBar(FormatBarEvent::Bold);
    let selection = Selection::from(layered("p1", "i1", 0), layered("p2", "i2", 5));
    let steps = generate_steps(&event, &two_paragraphs(), selection, &CustomCopy::new(), &mut ids).unwrap();
    assert!(matches!(&steps[..], [Step::AddMarkStep(s)] if s.mark == Mark::Bold));

    let bold = map_of(vec![
        Block::Root(RootBlock::from("root".to_string(), vec!["p1".to_string(), "p2".to_string()])),
        paragraph("p1", vec!["i1"], vec![], "root"),
        inline("i1", "hello", vec![Mark::Bold], "p1"),
        paragraph("p2", vec!["i2"], vec![], "root"),
        inline("i2", "world", vec![Mark::Bold], "p2"),
    ]);
    let selection = Selection::from(layered("p1", "i1", 0), layered("p2", "i2", 5));
    let steps = generate_steps(&event, &bold, selection, &CustomCopy::new(), &mut ids).unwrap();
    assert!(matches!(&steps[..], [Step::RemoveMarkStep(s)] if s.mark == Mark::Bold));
}

#[test]
fn blocks_between_two_positions_come_in_document_order() {
    let m = nested();
    let between = get_blocks_between(&layered("p1", "i1", 0), &layered("p2", "i2", 2), BlockStructure::Flat, &m).unwrap();
    match between {
        BlocksBetween::Flat(bs) => {
            let ids: Vec<String> = bs.iter().map(|b| b._id.clone()).collect();
            assert_eq!(ids, vec!["p1".to_string(), "c1".to_string(), "p2".to_string()]);
        },
        BlocksBetween::Tree { .. } => panic!("asked for the blocks flat"),
    }
    let between = get_blocks_between(&layered("p1", "i1", 0), &layered("c1", "j1", 2), BlockStructure::Tree, &m).unwrap();
    match between {
        BlocksBetween::Tree { top_blocks, block_map } => {
            assert_eq!(top_blocks.len(), 1);
            assert_eq!(top_blocks[0]._id, "p1");
            assert!(block_map.get_standard_block("c1").unwrap().children.is_empty());
            assert_eq!(text_of(&block_map, "j1"), "two");
        },
        BlocksBetween::Flat(_) => panic!("asked for the blocks as a tree"),
    }
}

#[test]
fn enter_at_the_start_of_a_block_adds_a_paragraph_above_it() {
    let mut ids = NewIds::hardcoded_new_ids_for_tests();
    let state = run(press(Key::Enter, false), two_paragraphs(), Selection::from(caret("i1", 0), caret("i1", 0)), &mut ids);
    let children = state.block_map.get_root_block("root").unwrap().children;
    assert_eq!(children.len(), 3);
    assert_eq!(children[1], "p1");
    assert_eq!(children[2], "p2");
    assert_eq!(block_text(&state.block_map, &children[0]), "");
    assert_eq!(block_text(&state.block_map, "p1"), "hello");
    let selection = state.selection.unwrap();
    assert_eq!(selection.anchor.block_id, "i1");
    assert_eq!(selection.anchor.offset, 0);
}

#[test]
fn backspace_at_the_start_of_a_nested_block_moves_it_up_a_level() {
    let m = nested();
    let steps = generate_steps(&press(Key::Backspace, false), &m, Selection::from(caret("j1", 0), caret("j1", 0)), &CustomCopy::new(), &mut NewIds::Rust(vec![])).unwrap();
    assert!(matches!(&steps[..], [Step::TurnToParent(t)] if t.block_id == "c1"));
    let state = actualise_steps(steps, m, &mut NewIds::Rust(vec![]), CustomCopy::new()).unwrap();
    assert!(state.block_map.get_root_block("root").unwrap().children.contains(&"c1".to_string()));
    assert_eq!(state.block_map.get_standard_block("c1").unwrap().parent, "root");
}

#[test]
fn backspace_at_the_start_of_the_first_block_does_nothing() {
    let steps = generate_steps(&press(Key::Backspace, false), &two_paragraphs(), Selection::from(caret("i1", 0), caret("i1", 0)), &CustomCopy::new(), &mut NewIds::Rust(vec![])).unwrap();
    assert!(steps.is_empty());
}

#[test]
fn delete_at_the_end_of_an_inline_block_removes_the_first_unit_of_the_next() {
    let m = map_of(vec![
        Block::Root(RootBlock::from("root".to_string(), vec!["p1".to_string()])),
        paragraph("p1", vec!["i1", "i2"], vec![], "root"),
        inline("i1", "ab", vec![Mark::Bold], "p1"),
        inline("i2", "cd", vec![], "p1"),
    ]);
    let mut ids = NewIds::Rust(vec![]);
    let state = run(press(Key::Delete, false), m, Selection::from(caret("i1", 2), caret("i1", 2)), &mut ids);
    assert_eq!(block_text(&state.block_map, "p1"), "abd");
}

#[test]
fn delete_at_the_end_of_the_last_block_does_nothing() {
    let steps = generate_steps(&press(Key::Delete, false), &two_paragraphs(), Selection::from(caret("i2", 5), caret("i2", 5)), &CustomCopy::new(), &mut NewIds::Rust(vec![])).unwrap();
    assert!(steps.is_empty());
}

#[test]
fn dropping_a_block_beside_another_puts_both_in_a_new_row() {
    let m = two_paragraphs();
    let mut ids = NewIds::Rust(vec!["col2".to_string(), "col1".to_string(), "row".to_string()]);
    let event = Event::DropBlock(DropBlockEvent {
        drag_block_id: "p2".to_string(),
        drop_block_id: "p1".to_string(),
        side_dropped: Side::Right,
    });
    let state = run(event, m, Selection::from(caret("i1", 0), caret("i1", 0)), &mut ids);
    assert_eq!(state.block_map.get_root_block("root").unwrap().children, vec!["row".to_string()]);
    let row = state.block_map.get_standard_block("row").unwrap();
    assert!(matches!(row.content, StandardBlockType::Layout(ref l) if l.horizontal));
    assert_eq!(row.children, vec!["col1".to_string(), "col2".to_string()]);
    let right = state.block_map.get_standard_block("col2").unwrap();
    assert!(matches!(right.content, StandardBlockType::Layout(ref l) if !l.horizontal));
    assert_eq!(right.children, vec!["p2".to_string()]);
    assert_eq!(state.block_map.get_standard_block("p2").unwrap().parent, "col2");
    assert_eq!(state.block_map.get_standard_block("p1").unwrap().parent, "col1");
}

#[test]
fn dropping_a_block_beside_a_column_adds_a_column_to_its_row() {
    let m = map_of(vec![
        Block::Root(RootBlock::from("root".to_string(), vec!["row".to_string(), "p2".to_string()])),
        standard("row", StandardBlockType::Layout(LayoutBlock { horizontal: true }), vec!["col1"], "root"),
        standard("col1", StandardBlockType::Layout(LayoutBlock { horizontal: false }), vec!["p1"], "row"),
        paragraph("p1", vec!["i1"], vec![], "col1"),
        inline("i1", "hello", vec![], "p1"),
        paragraph("p2", vec!["i2"], vec![], "root"),
        inline("i2", "world", vec![], "p2"),
    ]);
    let mut ids = NewIds::Rust(vec!["col2".to_string()]);
    let event = Event::DropBlock(DropBlockEvent {
        drag_block_id: "p2".to_string(),
        drop_block_id: "p1".to_string(),
        side_dropped: Side::Left,
    });
    let state = run(event, m, Selection::from(caret("i1", 0), caret("i1", 0)), &mut ids);
    assert_eq!(state.block_map.get_root_block("root").unwrap().children, vec!["row".to_string()]);
    assert_eq!(state.block_map.get_standard_block("row").unwrap().children, vec!["col2".to_string(), "col1".to_string()]);
    assert_eq!(state.block_map.get_standard_block("col2").unwrap().children, vec!["p2".to_string()]);
    assert_eq!(state.block_map.get_standard_block("p2").unwrap().parent, "col2");
}

/// root -> [p1, p2]; p1 -> [c1]; c1 -> [g1]: g1 and c1 have no next
/// sibling, so the walk climbs two levels to reach p2.
fn deep() -> BlockMap {
    map_of(vec![
        Block::Root(RootBlock::from("root".to_string(), vec!["p1".to_string(), "p2".to_string()])),
        paragraph("p1", vec!["i1"], vec!["c1"], "root"),
        inline("i1", "one", vec![], "p1"),
        paragraph("c1", vec!["j1"], vec!["g1"], "p1"),
        inline("j1", "two", vec![], "c1"),
        paragraph("g1", vec!["k1"], vec![], "c1"),
        inline("k1", "three", vec![], "g1"),
        paragraph("p2", vec!["i2"], vec![], "root"),
        inline("i2", "four", vec![], "p2"),
    ])
}

#[test]
fn blocks_between_climb_past_ancestors_without_next_siblings() {
    let m = deep();
    let between = get_blocks_between(&layered("p1", "i1", 0), &layered("p2", "i2", 2), BlockStructure::Flat, &m).unwrap();
    match between {
        BlocksBetween::Flat(bs) => {
            let ids: Vec<String> = bs.iter().map(|b| b._id.clone()).collect();
            assert_eq!(ids, vec!["p1".to_string(), "c1".to_string(), "g1".to_string(), "p2".to_string()]);
        },
        BlocksBetween::Tree { .. } => panic!("asked for the blocks flat"),
    }
}

#[test]
fn the_end_with_more_layers_comes_first_in_one_block() {
    let m = nested();
    let a = SubSelection::from("p1".to_string(), 0, Some(Box::new(layered("c1", "j1", 1))));
    let h = layered("p1", "i1", 2);
    let (from, to) = Selection::from(a.copy(), h.copy()).get_from_to(&m).unwrap();
    assert_eq!(from, a);
    assert_eq!(to, h);
    let (from, to) = Selection::from(h.copy(), a.copy()).get_from_to(&m).unwrap();
    assert_eq!(from, a);
    assert_eq!(to, h);
}

#[test]
fn enter_inside_a_block_puts_the_new_block_after_it_with_its_children() {
    let mut ids = NewIds::hardcoded_new_ids_for_tests();
    let state = run(press(Key::Enter, false), nested(), Selection::from(caret("i1", 1), caret("i1", 1)), &mut ids);
    let children = state.block_map.get_root_block("root").unwrap().children;
    assert_eq!(children.len(), 3);
    assert_eq!(children[0], "p1");
    assert_eq!(children[2], "p2");
    let new_block = state.block_map.get_standard_block(&children[1]).unwrap();
    assert!(matches!(new_block.content, StandardBlockType::Paragraph(_)));
    assert_eq!(new_block.children, vec!["c1".to_string()]);
    assert!(state.block_map.get_standard_block("p1").unwrap().children.is_empty());
    assert_eq!(block_text(&state.block_map, "p1"), "o");
    assert_eq!(block_text(&state.block_map, &children[1]), "ne");
}

#[test]
fn enter_in_a_ticked_todo_item_starts_an_unticked_one_with_the_caret_in_it() {
    let m = map_of(vec![
        Block::Root(RootBlock::from("root".to_string(), vec!["t1".to_string()])),
        standard(
            "t1",
            StandardBlockType::TodoList(ListBlock { content: ContentBlock::new(vec!["i1".to_string()]), completed: true }),
            vec![],
            "root",
        ),
        inline("i1", "milk", vec![], "t1"),
    ]);
    let mut ids = NewIds::hardcoded_new_ids_for_tests();
    let state = run(press(Key::Enter, false), m, Selection::from(caret("i1", 2), caret("i1", 2)), &mut ids);
    let children = state.block_map.get_root_block("root").unwrap().children;
    assert_eq!(children.len(), 2);
    let new_block = state.block_map.get_standard_block(&children[1]).unwrap();
    assert!(matches!(new_block.content, StandardBlockType::TodoList(ref l) if !l.completed));
    assert_eq!(block_text(&state.block_map, "t1"), "mi");
    assert_eq!(block_text(&state.block_map, &children[1]), "lk");
    let first = new_block.content.content_block().unwrap().inline_blocks[0].clone();
    let selection = state.selection.unwrap();
    assert_eq!(selection.anchor.block_id, first);
    assert_eq!(selection.anchor.offset, 0);
}

#[test]
fn dropping_a_block_on_the_left_puts_it_in_the_left_column() {
    let m = two_paragraphs();
    let mut ids = NewIds::Rust(vec!["col2".to_string(), "col1".to_string(), "row".to_string()]);
    let event = Event::DropBlock(DropBlockEvent {
        drag_block_id: "p2".to_string(),
        drop_block_id: "p1".to_string(),
        side_dropped: Side::Left,
    });
    let state = run(event, m, Selection::from(caret("i1", 0), caret("i1", 0)), &mut ids);
    assert_eq!(state.block_map.get_root_block("root").unwrap().children, vec!["row".to_string()]);
    assert_eq!(state.block_map.get_standard_block("row").unwrap().children, vec!["col1".to_string(), "col2".to_string()]);
    assert_eq!(state.block_map.get_standard_block("col1").unwrap().children, vec!["p2".to_string()]);
    assert_eq!(state.block_map.get_standard_block("col2").unwrap().children, vec!["p1".to_string()]);
}

#[test]
fn dropping_a_block_right_of_a_column_adds_a_column_after_it() {
    let m = map_of(vec![
        Block::Root(RootBlock::from("root".to_string(), vec!["row".to_string(), "p2".to_string()])),
        standard("row", StandardBlockType::Layout(LayoutBlock { horizontal: true }), vec!["col1"], "root"),
        standard("col1", StandardBlockType::Layout(LayoutBlock { horizontal: false }), vec!["p1"], "row"),
        paragraph("p1", vec!["i1"], vec![], "col1"),
        inline("i1", "hello", vec![], "p1"),
        paragraph("p2", vec!["i2"], vec![], "root"),
        inline("i2", "world", vec![], "p2"),
    ]);
    let mut ids = NewIds::Rust(vec!["col2".to_string()]);
    let event = Event::DropBlock(DropBlockEvent {
        drag_block_id: "p2".to_string(),
        drop_block_id: "p1".to_string(),
        side_dropped: Side::Right,
    });
    let state = run(event, m, Selection::from(caret("i1", 0), caret("i1", 0)), &mut ids);
    assert_eq!(state.block_map.get_standard_block("row").unwrap().children, vec!["col1".to_string(), "col2".to_string()]);
}
