use block_editor::blocks::inline_blocks::text_block::{StringUTF16, TextBlock};
use block_editor::blocks::inline_blocks::{InlineBlock, InlineBlockType};
use block_editor::blocks::standard_blocks::content_block::ContentBlock;
use block_editor::blocks::standard_blocks::list_block::ListBlock;
use block_editor::blocks::standard_blocks::{StandardBlock, StandardBlockType};
use block_editor::blocks::{Block, BlockMap, RootBlock};
use block_editor::mark::{Color, Mark};
use block_editor::new_ids::NewIds;
use block_editor::step::{ReplaceSlice, ReplaceStep, Step};
use block_editor::steps_actualisor::{actualise_steps, all_marks_are_identical, CustomCopy};
use block_editor::steps_generator::event::{ContextMenuEvent, Event, Key, KeyPress, Side};
use block_editor::steps_generator::selection::{Selection, SubSelection};
use block_editor::steps_generator::{generate_steps, StepError};

fn inline(id: &str, text: &str, marks: Vec<Mark>, parent: &str) -> Block {
    Block::InlineBlock(InlineBlock {
        _id: id.to_string(),
        content: InlineBlockType::TextBlock(TextBlock(StringUTF16::from_str(text))),
        marks,
        parent: parent.to_string(),
    })
}

fn paragraph(id: &str, inline_blocks: Vec<&str>, parent: &str) -> Block {
    Block::StandardBlock(StandardBlock {
        _id: id.to_string(),
        content: StandardBlockType::Paragraph(ContentBlock::new(
            inline_blocks.iter().map(|s| s.to_string()).collect(),
        )),
        children: vec![],
        parent: parent.to_string(),
        marks: vec![],
    })
}

fn map_of(blocks: Vec<Block>) -> BlockMap {
    let mut m = BlockMap::new();
    let mut touched = vec![];
    for b in blocks {
        m.update_block(b, &mut touched).unwrap();
    }
    m
}

/// root -> [p1, p2]; p1 holds "hello", p2 holds "world".
fn two_paragraphs() -> BlockMap {
    map_of(vec![
        Block::Root(RootBlock::from("root".to_string(), vec!["p1".to_string(), "p2".to_string()])),
        paragraph("p1", vec!["i1"], "root"),
        inline("i1", "hello", vec![], "p1"),
        paragraph("p2", vec!["i2"], "root"),
        inline("i2", "world", vec![], "p2"),
    ])
}

fn text_of(m: &BlockMap, id: &str) -> String {
    m.get_inline_block(id).unwrap().text().unwrap().clone().to_string()
}

fn caret(id: &str, offset: usize) -> SubSelection {
    SubSelection::from(id.to_string(), offset, None)
}

#[test]
fn mark_names_round_trip() {
    for name in ["bold", "italic", "underline", "strikethrough"] {
        let mark = Mark::from_str(name).unwrap();
        assert_eq!(mark.to_string(), name);
    }
    assert_eq!(Mark::from_str("bold").unwrap(), Mark::Bold);
    assert!(Mark::from_str("shiny").is_err());
}

#[test]
fn color_marks_parse_and_print() {
    let mark = Mark::from_str("fore_color(1, 22, 255, 0)").unwrap();
    assert_eq!(mark, Mark::ForeColor(Color::from(1, 22, 255, 0)));
    assert_eq!(mark.to_string(), "fore_color(1, 22, 255, 0)");
    let back = Mark::color_mark_from_str("back_color(0,0,0,1)").unwrap();
    assert_eq!(back, Mark::BackColor(Color(0, 0, 0, 1)));
    assert_eq!(Color(9, 8, 7, 6).to_string(), "(9, 8, 7, 6)");
    assert!(Mark::from_str("fore_color(1, 2, 3)").is_err());
    assert!(Mark::from_str("fore_color(1, 2, 3, 256)").is_err());
}

#[test]
fn marks_of_one_type_are_the_same_type() {
    let red = Mark::ForeColor(Color(255, 0, 0, 1));
    let blue = Mark::ForeColor(Color(0, 0, 255, 1));
    assert!(red.is_same_type(&blue));
    assert!(!red.is_same_type(&Mark::BackColor(Color(255, 0, 0, 1))));
    assert!(Mark::Bold.is_same_type(&Mark::Bold));
    assert!(!Mark::Bold.is_same_type(&Mark::Italic));
}

#[test]
fn identical_marks_ignore_order() {
    assert!(all_marks_are_identical(&vec![Mark::Bold, Mark::Italic], &vec![Mark::Italic, Mark::Bold]));
    assert!(!all_marks_are_identical(&vec![Mark::Bold], &vec![Mark::Bold, Mark::Italic]));
    assert!(!all_marks_are_identical(&vec![Mark::Bold], &vec![Mark::Italic]));
    assert!(all_marks_are_identical(&vec![], &vec![]));
}

#[test]
fn utf16_text_round_trips() {
    for s in ["", "hello", "héllo", "a😀b"] {
        assert_eq!(StringUTF16::from_str(s).to_string(), s);
    }
    assert_eq!(StringUTF16::from_str("a😀b").len(), 4);
}

#[test]
fn utf16_text_editing() {
    let mut s = StringUTF16::from_str("hello");
    s.splice(1..3, StringUTF16::from_str("EY"));
    assert_eq!(s.clone().to_string(), "hEYlo");
    assert_eq!(s.slice(1..4).to_string(), "EYl");
    let (a, b) = s.split(2);
    assert_eq!(a.clone().to_string(), "hE");
    assert_eq!(b.clone().to_string(), "Ylo");
    assert_eq!(a.concat(b).to_string(), "hEYlo");
    let (x, y, z) = StringUTF16::from_str("abcdef").split_before_middle_after(2, 4);
    assert_eq!((x.to_string(), y.to_string(), z.to_string()), ("ab".to_string(), "cd".to_string(), "ef".to_string()));
}

#[test]
fn keys_from_names() {
    assert_eq!(Key::from_str("Backspace").unwrap(), Key::Backspace);
    assert_eq!(Key::from_str("Enter").unwrap(), Key::Enter);
    assert_eq!(Key::from_str("a").unwrap(), Key::Standard('a'));
    assert!(Key::from_str("ab").is_err());
    let k = KeyPress::new(Key::Tab, None);
    assert!(!k.metadata.shift_down && !k.metadata.ctrl_down);
}

#[test]
fn sides_from_names() {
    assert_eq!(Side::from_str("top").unwrap(), Side::Top);
    assert_eq!(Side::from_str("right").unwrap(), Side::Right);
    assert!(Side::from_str("middle").is_err());
    assert_eq!(Side::Bottom.name(), "bottom");
    for side in [Side::Top, Side::Bottom, Side::Left, Side::Right] {
        assert_eq!(Side::from_str(&side.name()).unwrap(), side);
    }
}

#[test]
fn context_menu_events_from_names() {
    assert!(matches!(ContextMenuEvent::from_value("copy"), Ok(ContextMenuEvent::Copy)));
    assert!(matches!(ContextMenuEvent::from_value("paste"), Ok(ContextMenuEvent::Paste)));
    assert!(ContextMenuEvent::from_value("print").is_err());
}

#[test]
fn subselection_layers() {
    let inner = SubSelection::from("i1".to_string(), 3, None);
    let outer = SubSelection::from("p1".to_string(), 0, Some(Box::new(inner)));
    assert_eq!(outer.count_layers(), 2);
    assert_eq!(outer.block_id(), "p1");
    assert_eq!(outer.get_deepest_subselection().block_id, "i1");
    assert_eq!(outer.get_child_subselection().unwrap().offset, 3);
    let two = outer.get_two_deepest_layers().unwrap();
    assert_eq!(two.block_id, "p1");
    assert_eq!(two.get_child_subselection().unwrap().block_id, "i1");
    assert!(SubSelection::from("i1".to_string(), 0, None).get_two_deepest_layers().is_err());
}

#[test]
fn fresh_ids_come_from_the_end() {
    let mut ids = NewIds::Rust(vec!["x".to_string(), "y".to_string()]);
    assert_eq!(ids.get_id().unwrap(), "y");
    assert_eq!(ids.get_id().unwrap(), "x");
    assert!(matches!(ids.get_id(), Err(StepError(_))));
}

#[test]
fn typing_a_character_replaces_the_selection() {
    let block_map = two_paragraphs();
    let mut ids = NewIds::Rust(vec![]);
    let event = Event::KeyPress(KeyPress::new(Key::Standard('X'), None));
    let selection = Selection::from(caret("i1", 3), caret("i1", 1));
    let steps = generate_steps(&event, &block_map, selection, &CustomCopy::new(), &mut ids).unwrap();
    assert_eq!(steps.len(), 1);
    match &steps[0] {
        Step::ReplaceStep(r) => {
            assert_eq!(r.block_id, "p1");
            assert_eq!(r.from, caret("i1", 1));
            assert_eq!(r.to, caret("i1", 3));
            assert_eq!(r.slice, ReplaceSlice::String("X".to_string()));
        },
        _ => panic!("expected a replace step"),
    }
    let state = actualise_steps(steps, block_map, &mut ids, CustomCopy::new()).unwrap();
    assert_eq!(text_of(&state.block_map, "i1"), "hXlo");
    assert_eq!(text_of(&state.block_map, "i2"), "world");
}

#[test]
fn replace_step_in_one_inline_block() {
    let block_map = two_paragraphs();
    let mut ids = NewIds::Rust(vec![]);
    let step = Step::ReplaceStep(ReplaceStep {
        block_id: "p2".to_string(),
        from: caret("i2", 0),
        to: caret("i2", 5),
        slice: ReplaceSlice::String("moon".to_string()),
    });
    let state = actualise_steps(vec![step], block_map, &mut ids, CustomCopy::new()).unwrap();
    assert_eq!(text_of(&state.block_map, "i2"), "moon");
    let selection = state.selection.unwrap();
    assert_eq!(selection.anchor, caret("i2", 4));
    assert_eq!(selection.head, caret("i2", 4));
}

#[test]
fn replace_step_past_the_text_is_refused() {
    let block_map = two_paragraphs();
    let mut ids = NewIds::Rust(vec![]);
    let step = Step::ReplaceStep(ReplaceStep {
        block_id: "p1".to_string(),
        from: caret("i1", 2),
        to: caret("i1", 9),
        slice: ReplaceSlice::String("".to_string()),
    });
    assert!(actualise_steps(vec![step], block_map, &mut ids, CustomCopy::new()).is_err());
}

#[test]
fn toggling_a_todo_twice_restores_it() {
    let todo = Block::StandardBlock(StandardBlock {
        _id: "t1".to_string(),
        content: StandardBlockType::TodoList(ListBlock {
            content: ContentBlock::new(vec!["i1".to_string()]),
            completed: false,
        }),
        children: vec![],
        parent: "root".to_string(),
        marks: vec![],
    });
    let block_map = map_of(vec![
        Block::Root(RootBlock::from("root".to_string(), vec!["t1".to_string()])),
        todo.clone(),
        inline("i1", "milk", vec![], "t1"),
    ]);
    let mut ids = NewIds::Rust(vec![]);
    let once = actualise_steps(vec![Step::ToggleCompleted("t1".to_string())], block_map, &mut ids, CustomCopy::new())
        .unwrap();
    match once.block_map.get_standard_block("t1").unwrap().content {
        StandardBlockType::TodoList(l) => assert!(l.completed),
        _ => panic!("expected a to-do list"),
    }
    let twice = actualise_steps(vec![Step::ToggleCompleted("t1".to_string())], once.block_map, &mut ids, CustomCopy::new())
        .unwrap();
    assert_eq!(Block::StandardBlock(twice.block_map.get_standard_block("t1").unwrap()), todo);
}

#[test]
fn deleting_a_block_detaches_it() {
    let block_map = two_paragraphs();
    let mut ids = NewIds::Rust(vec![]);
    let event = Event::DeleteBlock("p2".to_string());
    let selection = Selection::from(caret("i1", 0), caret("i1", 0));
    let steps = generate_steps(&event, &block_map, selection, &CustomCopy::new(), &mut ids).unwrap();
    assert!(matches!(&steps[..], [Step::DeleteBlock(id)] if id == "p2"));
    let state = actualise_steps(steps, block_map, &mut ids, CustomCopy::new()).unwrap();
    assert_eq!(state.block_map.get_root_block("root").unwrap().children, vec!["p1".to_string()]);
    let lone = map_of(vec![
        Block::Root(RootBlock::from("root".to_string(), vec!["p1".to_string()])),
        paragraph("p1", vec!["i1"], "root"),
        inline("i1", "hello", vec![], "p1"),
    ]);
    let kept = actualise_steps(vec![Step::DeleteBlock("p1".to_string())], lone, &mut ids, CustomCopy::new()).unwrap();
    assert_eq!(kept.block_map.get_root_block("root").unwrap().children, vec!["p1".to_string()]);
}

#[test]
fn duplicate_needs_a_fresh_id() {
    let block_map = two_paragraphs();
    let selection = Selection::from(caret("i1", 0), caret("i1", 0));
    let mut none = NewIds::Rust(vec![]);
    let event = Event::Duplicate("p1".to_string());
    assert!(generate_steps(&event, &block_map, selection, &CustomCopy::new(), &mut none).is_err());
    let mut some = NewIds::Rust(vec!["n1".to_string(), "n2".to_string()]);
    let selection = Selection::from(caret("i1", 0), caret("i1", 0));
    let steps = generate_steps(&event, &block_map, selection, &CustomCopy::new(), &mut some).unwrap();
    match &steps[..] {
        [Step::Duplicate(d)] => {
            assert_eq!(d.duplicate_block_id, "p1");
            assert_eq!(d.new_block_id, "n2");
        },
        _ => panic!("expected one duplicate step"),
    }
}

#[test]
fn bold_shortcut_marks_the_selection() {
    let block_map = two_paragraphs();
    let mut ids = NewIds::Rust(vec!["a".to_string(), "b".to_string(), "c".to_string(), "d".to_string()]);
    let metadata = block_editor::steps_generator::event::KeyPressMetadata {
        shift_down: false,
        meta_down: false,
        ctrl_down: true,
        alt_down: false,
    };
    let event = Event::KeyPress(KeyPress::new(Key::Standard('b'), Some(metadata)));
    let selection = Selection::from(caret("i1", 1), caret("i1", 4));
    let steps = generate_steps(&event, &block_map, selection, &CustomCopy::new(), &mut ids).unwrap();
    assert!(matches!(&steps[..], [Step::AddMarkStep(m)] if m.mark == Mark::Bold));
    let state = actualise_steps(steps, block_map, &mut ids, CustomCopy::new()).unwrap();
    let p1 = state.block_map.get_standard_block("p1").unwrap();
    let inline_ids = p1.content_block().unwrap().inline_blocks.clone();
    assert_eq!(inline_ids.len(), 3);
    let texts: Vec<String> = inline_ids.iter().map(|id| text_of(&state.block_map, id)).collect();
    assert_eq!(texts, vec!["h".to_string(), "ell".to_string(), "o".to_string()]);
    let middle = state.block_map.get_inline_block(&inline_ids[1]).unwrap();
    assert_eq!(middle.marks, vec![Mark::Bold]);
    assert!(state.block_map.get_inline_block(&inline_ids[0]).unwrap().marks.is_empty());
}

#[test]
fn errors_carry_their_messages() {
    assert_eq!(Key::from_str("ab").err().unwrap().0, "Standard key should only contain a single char");
    assert_eq!(Side::from_str("Left").err().unwrap().0, "Not a valid side: Left");
    assert_eq!(
        Mark::color_mark_from_str("fore_color(1, 2, 3)").err().unwrap().0,
        "Color should have 4 numbers. Got: fore_color(1, 2, 3)"
    );
    assert_eq!(
        Mark::color_mark_from_str("fore_color(256, 0, 0, 1)").err().unwrap().0,
        "Invalid Mark: fore_color(256, 0, 0, 1)"
    );
    let mut ids = NewIds::Rust(vec![]);
    assert_eq!(ids.get_id().err().unwrap().0, "New ids vec is empty!");
    let root = RootBlock::from("root".to_string(), vec!["p1".to_string()]);
    assert_eq!(root.index_of_child("zz").err().unwrap().0, "Child not found");
}

#[test]
fn test_ids_come_in_alphabetical_order() {
    let mut ids = NewIds::hardcoded_new_ids_for_tests();
    assert_eq!(ids.get_id().unwrap(), "a");
    assert_eq!(ids.get_id().unwrap(), "b");
    assert_eq!(ids.len(), 26);
}

#[test]
fn turning_the_first_child_into_a_child_is_refused() {
    let block_map = two_paragraphs();
    let mut ids = NewIds::Rust(vec![]);
    let step = Step::TurnToChild(block_editor::step::TurnToChild { block_id: "p1".to_string() });
    let err = actualise_steps(vec![step], block_map, &mut ids, CustomCopy::new()).err().unwrap();
    assert_eq!(err.0, "Should not be able to turn into child if first index");
}

#[test]
fn ticking_a_todo_redraws_it() {
    let todo = Block::StandardBlock(StandardBlock {
        _id: "t1".to_string(),
        content: StandardBlockType::TodoList(ListBlock { content: ContentBlock::new(vec!["i1".to_string()]), completed: false }),
        children: vec![],
        parent: "root".to_string(),
        marks: vec![],
    });
    let block_map = map_of(vec![
        Block::Root(RootBlock::from("root".to_string(), vec!["t1".to_string()])),
        todo,
        inline("i1", "milk", vec![], "t1"),
    ]);
    let mut ids = NewIds::Rust(vec![]);
    let state = actualise_steps(vec![Step::ToggleCompleted("t1".to_string())], block_map, &mut ids, CustomCopy::new()).unwrap();
    assert!(state.blocks_to_update.contains(&"t1".to_string()));
}
