use block_editor::backend_interface::actualise_mirror_step;
use block_editor::blocks::inline_blocks::InlineBlockType;
use block_editor::blocks::standard_blocks::StandardBlockType;
use block_editor::blocks::{Block, BlockMap};
use block_editor::mark::Mark;
use block_editor::step::{ReplaceSlice, Step};
use block_editor::steps_generator::event::Side;

fn text(b: &Block) -> String {
    match b {
        Block::InlineBlock(i) => {
            let InlineBlockType::TextBlock(t) = &i.content;
            String::from_utf16(&t.0 .0).unwrap()
        },
        _ => panic!("not an inline block"),
    }
}

#[test]
fn a_paragraph_reads_back_from_its_json() {
    let json = r#"{"_id":"p1","kind":"standard","_type":"paragraph","content":{"inline_blocks":["i1","i2"]},"children":["c1"],"parent":"root","marks":[]}"#;
    match Block::from_json(json).unwrap() {
        Block::StandardBlock(b) => {
            assert_eq!(b._id, "p1");
            assert_eq!(b.parent, "root");
            assert_eq!(b.children, vec!["c1".to_string()]);
            assert!(b.marks.is_empty());
            match b.content {
                StandardBlockType::Paragraph(c) => assert_eq!(c.inline_blocks, vec!["i1".to_string(), "i2".to_string()]),
                _ => panic!("not a paragraph"),
            }
        },
        _ => panic!("not a standard block"),
    }
}

#[test]
fn a_todo_item_reads_back_ticked() {
    let json = r#"{"_id":"t1","kind":"standard","_type":"to-do list","content":{"inline_blocks":["i1"],"completed":true},"children":[],"parent":"root","marks":[]}"#;
    match Block::from_json(json).unwrap() {
        Block::StandardBlock(b) => match b.content {
            StandardBlockType::TodoList(l) => {
                assert!(l.completed);
                assert_eq!(l.content.inline_blocks, vec!["i1".to_string()]);
            },
            _ => panic!("not a to-do item"),
        },
        _ => panic!("not a standard block"),
    }
}

#[test]
fn an_inline_block_reads_back_with_its_text_and_marks() {
    let json = r#"{"_id":"i1","kind":"inline","_type":"text","content":{"text":"héllo"},"parent":"p1","marks":["bold","italic"]}"#;
    let b = Block::from_json(json).unwrap();
    assert_eq!(text(&b), "héllo");
    match b {
        Block::InlineBlock(i) => {
            assert_eq!(i._id, "i1");
            assert_eq!(i.parent, "p1");
            assert_eq!(i.marks, vec![Mark::Bold, Mark::Italic]);
        },
        _ => panic!("not an inline block"),
    }
}

#[test]
fn the_root_reads_back_with_its_children() {
    let b = Block::from_json(r#"{"_id":"root","kind":"root","children":["p1","p2"]}"#).unwrap();
    match b {
        Block::Root(r) => {
            assert_eq!(r._id, "root");
            assert_eq!(r.children, vec!["p1".to_string(), "p2".to_string()]);
        },
        _ => panic!("not the root"),
    }
}

#[test]
fn text_that_is_not_json_is_refused_with_the_text() {
    let e = Block::from_json("{not json").err().unwrap();
    assert_eq!(e.0, "Could not parse json block from str: {not json");
}

#[test]
fn a_block_of_an_unknown_kind_or_with_a_bad_mark_is_refused() {
    assert!(Block::from_json(r#"{"_id":"x","kind":"other"}"#).is_err());
    assert!(Block::from_json(r#"{"_id":"i1","kind":"inline","_type":"text","content":{"text":"a"},"parent":"p1","marks":["shiny"]}"#).is_err());
    assert!(Block::from_json(r#"{"_id":"p1","kind":"standard","_type":"paragraph","content":{"inline_blocks":[1]},"children":[],"parent":"root","marks":[]}"#).is_err());
}

#[test]
fn a_document_reads_back_from_the_json_of_its_blocks() {
    let blocks = vec![
        r#"{"_id":"root","kind":"root","children":["p1"]}"#.to_string(),
        r#"{"_id":"p1","kind":"standard","_type":"paragraph","content":{"inline_blocks":["i1"]},"children":[],"parent":"root","marks":[]}"#.to_string(),
        r#"{"_id":"i1","kind":"inline","_type":"text","content":{"text":"hi"},"parent":"p1","marks":[]}"#.to_string(),
    ];
    let m = BlockMap::from(blocks).unwrap();
    assert_eq!(m.get_root_block("root").unwrap().children, vec!["p1".to_string()]);
    assert_eq!(m.get_standard_block("p1").unwrap().parent, "root");
    assert_eq!(text(&m.get_block("i1").unwrap()), "hi");
    assert!(BlockMap::from(vec!["[]".to_string()]).is_err());
}

#[test]
fn steps_read_back_by_their_type_name() {
    match Step::from_json("TurnToChild", r#"{"block_id":"p2"}"#).unwrap() {
        Step::TurnToChild(t) => assert_eq!(t.block_id, "p2"),
        _ => panic!("not a turn to child step"),
    }
    let add = r#"{"block_id":"root","new_std_block_id":"n1","new_inline_block_id":"n2","child_offset":1,"block_type":{"_type":"h1","content":{"inline_blocks":[]}},"focus_block_below":false}"#;
    match Step::from_json("AddBlock", add).unwrap() {
        Step::AddBlock(a) => {
            assert_eq!(a.block_id, "root");
            assert_eq!(a.child_offset, 1);
            assert!(matches!(a.block_type, StandardBlockType::H1(_)));
            assert!(!a.focus_block_below);
        },
        _ => panic!("not an add block step"),
    }
    let mark = r#"{"block_id":"p1","from":{"block_id":"i1","offset":0,"subselection":null},"to":{"block_id":"i1","offset":2,"subselection":null},"mark":"bold","from_new_inline_id":"a","to_new_inline_id":"b"}"#;
    match Step::from_json("RemoveMarkStep", mark).unwrap() {
        Step::AddMarkStep(m) => {
            assert_eq!(m.mark, Mark::Bold);
            assert_eq!(m.to.offset, 2);
        },
        _ => panic!("a remove mark step reads as an add mark step"),
    }
    let split = r#"{"subselection":{"block_id":"p1","offset":0,"subselection":{"block_id":"i1","offset":3,"subselection":null}},"new_std_block_id":"n1","new_inline_block_id":"n2"}"#;
    match Step::from_json("SplitStep", split).unwrap() {
        Step::SplitStep(s) => {
            assert_eq!(s.subselection.block_id, "p1");
            assert_eq!(s.subselection.get_deepest_subselection().block_id, "i1");
            assert_eq!(s.subselection.get_deepest_subselection().offset, 3);
        },
        _ => panic!("not a split step"),
    }
    let replace = r#"{"block_id":"p1","from":{"block_id":"i1","offset":1,"subselection":null},"to":{"block_id":"i1","offset":1,"subselection":null},"slice":"x"}"#;
    match Step::from_json("ReplaceStep", replace).unwrap() {
        Step::ReplaceStep(r) => assert!(matches!(r.slice, ReplaceSlice::String(ref s) if s == "x")),
        _ => panic!("not a replace step"),
    }
    match Step::from_json("DropBlock", r#"{"drag_block_id":"a","drop_block_id":"b","side_dropped":"left"}"#).unwrap() {
        Step::DropBlock(e) => assert_eq!(e.side_dropped, Side::Left),
        _ => panic!("not a drop step"),
    }
}

#[test]
fn a_step_of_no_known_type_or_with_missing_fields_is_refused() {
    assert!(Step::from_json("Jump", r#"{"block_id":"p2"}"#).is_err());
    assert!(Step::from_json("TurnToParent", r#"{"id":"p2"}"#).is_err());
    assert!(Step::from_json("DropBlock", r#"{"drag_block_id":"a","drop_block_id":"b","side_dropped":"up"}"#).is_err());
    assert_eq!(Step::from_json("ToggleCompleted", "nope").err().unwrap().0, "Could not parse json block from str: nope");
}

#[test]
fn the_server_replays_a_step_given_as_json() {
    let blocks = vec![
        r#"{"_id":"root","kind":"root","children":["t1"]}"#.to_string(),
        r#"{"_id":"t1","kind":"standard","_type":"to-do list","content":{"inline_blocks":["i1"],"completed":false},"children":[],"parent":"root","marks":[]}"#.to_string(),
        r#"{"_id":"i1","kind":"inline","_type":"text","content":{"text":"buy milk"},"parent":"t1","marks":[]}"#.to_string(),
    ];
    let out = actualise_mirror_step(("ToggleCompleted".to_string(), r#"{"block_id":"t1"}"#.to_string()), vec![], blocks.clone())
        .unwrap()
        .unwrap();
    match out.get_standard_block("t1").unwrap().content {
        StandardBlockType::TodoList(l) => assert!(l.completed),
        _ => panic!("not a to-do item"),
    }
    assert!(actualise_mirror_step(("copy".to_string(), "{}".to_string()), vec![], blocks).unwrap().is_none());
}
