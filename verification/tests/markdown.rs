use dsh_desktop::markdown::{
    blocks_from_events, cursor_block, fence_closed, first_word, heading_size, is_mermaid_block,
    item_marker, new_parse_cache, parse, parse_cached, parse_hashed, streaming_blocks, Block,
    MdEvent, MdStart,
};
use std::sync::Arc;

#[test]
fn parse_cache_hits_on_same_text_and_misses_on_change() {
    let mut cache = new_parse_cache();
    let long = "长内容段落。".repeat(128);
    let a = parse_cached(&mut cache, "k1", &long);
    let b = parse_cached(&mut cache, "k1", &long);
    assert!(Arc::ptr_eq(&a, &b));
    let long2 = format!("{long}追加");
    let c = parse_cached(&mut cache, "k1", &long2);
    assert!(!Arc::ptr_eq(&a, &c));
    assert_eq!(&*c, &parse(&long2));
    let d = parse_cached(&mut cache, "k2", &long);
    assert!(!Arc::ptr_eq(&a, &d));
    let s1 = parse_cached(&mut cache, "k3", "短");
    let s2 = parse_cached(&mut cache, "k3", "短");
    assert!(!Arc::ptr_eq(&s1, &s2));
}

#[test]
fn the_hash_decides_about_a_cached_parse() {
    let mut cache = new_parse_cache();
    let long = "x".repeat(600);
    let a = parse_hashed(&mut cache, "k", 7, &long);
    let b = parse_hashed(&mut cache, "k", 7, &long);
    let c = parse_hashed(&mut cache, "k", 8, &long);
    assert!(Arc::ptr_eq(&a, &b));
    assert!(!Arc::ptr_eq(&a, &c));
    assert_eq!(*a, vec![Block::Paragraph(long)]);
}

#[test]
fn parses_common_subset() {
    let blocks = parse("# 标\n\n段 **粗** `c`。\n\n- 甲\n- 乙\n");
    assert_eq!(
        blocks,
        vec![
            Block::Heading(1, "标".into()),
            Block::Paragraph("段 粗 c。".into()),
            Block::Item(None, "甲".into()),
            Block::Item(None, "乙".into()),
        ]
    );
}

#[test]
fn ordered_list_increments() {
    let blocks = parse("1. a\n2. b\n");
    assert_eq!(
        blocks,
        vec![
            Block::Item(Some(1), "a".into()),
            Block::Item(Some(2), "b".into()),
        ]
    );
}

#[test]
fn code_block_and_rule() {
    let blocks = parse("t\n\n```\nx\n```\n\n---\n");
    assert_eq!(
        blocks,
        vec![
            Block::Paragraph("t".into()),
            Block::Code("x\n".into(), None, true),
            Block::Rule,
        ]
    );
    let blocks = parse("```rust ignore\nfn a(){}\n```\n");
    assert_eq!(
        blocks,
        vec![Block::Code("fn a(){}\n".into(), Some("rust".into()), true)]
    );
}

#[test]
fn unclosed_fence_is_closed_false() {
    let blocks = parse("```mermaid\ngraph TD\n");
    assert_eq!(
        blocks,
        vec![Block::Code(
            "graph TD\n".into(),
            Some("mermaid".into()),
            false
        )]
    );
}

#[test]
fn closed_fence_is_closed_true() {
    let blocks = parse("```mermaid\ngraph TD\n    A-->B\n```\n");
    assert_eq!(
        blocks,
        vec![Block::Code(
            "graph TD\n    A-->B\n".into(),
            Some("mermaid".into()),
            true
        )]
    );
    let blocks = parse("~~~mermaid\ngraph TD\n~~~\n");
    assert_eq!(
        blocks[0],
        Block::Code("graph TD\n".into(), Some("mermaid".into()), true)
    );
    let blocks = parse("    let x = 1;\n");
    assert_eq!(blocks[0], Block::Code("let x = 1;\n".into(), None, false));
}

#[test]
fn cursor_skips_closed_mermaid() {
    let closed = Block::Code("graph TD\n".into(), Some("mermaid".into()), true);
    assert_eq!(
        cursor_block(&closed, true),
        Block::Code("graph TD\n".into(), Some("mermaid".into()), true)
    );
    let unclosed = Block::Code("graph TD\n".into(), Some("mermaid".into()), false);
    assert_eq!(
        cursor_block(&unclosed, true),
        Block::Code("graph TD\n▍".into(), Some("mermaid".into()), false)
    );
    let beta = Block::Code(
        "sankey-beta\n    A-->B\n".into(),
        Some("mermaid".into()),
        true,
    );
    assert_eq!(
        cursor_block(&beta, false),
        Block::Code(
            "sankey-beta\n    A-->B\n▍".into(),
            Some("mermaid".into()),
            true
        )
    );
}

#[test]
fn a_fence_is_closed_by_its_own_sign() {
    assert!(fence_closed("```\nx\n```"));
    assert!(!fence_closed("```\nx\n~~~"));
    assert!(!fence_closed("```\nx\n``"));
    assert!(fence_closed("```\nx\n`````"));
    assert!(!fence_closed("```\nx\n    ```"));
    assert!(!fence_closed("```\nx\n``` y"));
    assert!(!fence_closed(""));
    assert!(!fence_closed("```\n"));
    assert!(!fence_closed("```\n\n  \n"));
    assert!(fence_closed("```\n```"));
}

#[test]
fn events_fold_into_blocks() {
    let starts = [MdStart::Quote, MdStart::Other, MdStart::Other];
    let events = [
        MdEvent::Other,
        MdEvent::Text("q".into()),
        MdEvent::QuoteEnd,
    ];
    assert_eq!(
        blocks_from_events(&starts, &events),
        vec![Block::Quote("q".into())]
    );
}

#[test]
fn only_the_last_block_gets_the_cursor() {
    let blocks = [Block::Paragraph("a".into()), Block::Paragraph("b".into())];
    assert_eq!(
        streaming_blocks(&blocks, false),
        vec![Block::Paragraph("a".into()), Block::Paragraph("b▍".into())]
    );
    assert!(streaming_blocks(&[], false).is_empty());
}

#[test]
fn marks_and_sizes() {
    assert_eq!(item_marker(None), "• ");
    assert_eq!(item_marker(Some(3)), "3. ");
    assert_eq!((heading_size(1), heading_size(2), heading_size(3)), (16, 15, 14));
    assert_eq!(first_word("  rust ignore").as_deref(), Some("rust"));
    assert_eq!(first_word("  "), None);
    assert!(is_mermaid_block(&Some("Mermaid".into()), true, true));
    assert!(!is_mermaid_block(&Some("mermaid".into()), false, true));
    assert!(!is_mermaid_block(&None, true, true));
}

#[test]
fn a_cache_gives_what_parsing_gives() {
    let mut cache = new_parse_cache();
    let texts = ["# h\n\np", &"word ".repeat(200), &"> q\n".repeat(200), "# h\n\np"];
    for _ in 0..2 {
        for text in texts {
            assert_eq!(*parse_cached(&mut cache, "k", text), parse(text));
        }
    }
}

#[test]
fn breaks_and_ends_fold_alike() {
    assert_eq!(
        parse("a\nb  \nc\n\n# d\n\n> e\n\n1. f"),
        vec![
            Block::Paragraph("a b c".into()),
            Block::Heading(1, "d".into()),
            Block::Quote(String::new()),
            Block::Paragraph("e".into()),
            Block::Item(Some(1), "f".into()),
        ]
    );
}
