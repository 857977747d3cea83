use dsh_desktop::codeblock::{
    code_body, colour_ranges, render_block, BlockView, CodeBody, ColourRange,
};
use dsh_desktop::highlight::{
    alias, code_palette, highlight, highlight_window, new_highlight_cache, scheme_name, scope_rules,
    shown_lines, Engine, Span,
};
use dsh_desktop::markdown::Block;
use dsh_desktop::toolcard::layout::{join_read_lines, read_lines, ReadLine, ReadText};
use dsh_desktop::toolcard::ReadCard;
use std::sync::Arc;

fn colours_of(spans: &[Span]) -> Vec<u32> {
    spans.iter().map(|s| s.colour).collect()
}

#[test]
fn lang_mapping() {
    let engine = Engine::new();
    let mut cache = new_highlight_cache();
    let lines = ["fn main() {}"];
    for lang in ["rust", "rs", "py", "typescript"] {
        assert!(highlight_window(&mut cache, &engine, true, "t", Some(lang), &lines).is_some());
    }
    assert!(highlight_window(&mut cache, &engine, true, "t", Some("no-such-lang"), &lines).is_none());
    assert!(highlight_window(&mut cache, &engine, true, "t", None, &lines).is_none());
}

#[test]
fn light_plus_theme_built() {
    let engine = Engine::new();
    let spans = highlight(&engine, false, "rust", &["x"]).unwrap();
    assert_eq!(colours_of(&spans[0]), vec![code_palette(false).foreground]);
    assert_ne!(code_palette(false).foreground, code_palette(true).foreground);
    assert_eq!(code_palette(false).foreground, 0xFF3B3B3B);
    assert_eq!(scheme_name(false), "dsh-light-plus");
    assert_eq!(scheme_name(true), "dsh-dark-plus");
}

#[test]
fn dark_plus_basic_classes() {
    let engine = Engine::new();
    let p = code_palette(true);
    let lines = ["// 注释", "let s = \"str\";", "let n = 42;"];
    let spans = highlight(&engine, true, "rust", &lines).expect("rust");
    assert_eq!(spans.len(), 3);
    assert!(colours_of(&spans[0]).iter().all(|c| *c == p.comment));
    let line2 = colours_of(&spans[1]);
    assert!(line2.contains(&p.keyword_type), "{line2:?}");
    assert!(line2.contains(&p.string), "{line2:?}");
    let line3 = colours_of(&spans[2]);
    assert!(line3.contains(&p.number), "{line3:?}");
}

#[test]
fn multiline_context_carries() {
    let engine = Engine::new();
    let p = code_palette(true);
    let lines = ["/* 起", "跨行注释仍绿", "收 */", "let x = 1;"];
    let spans = highlight(&engine, true, "rust", &lines).expect("rust");
    assert_eq!(colours_of(&spans[1]), vec![p.comment]);
    let after = colours_of(&spans[3]);
    assert!(after.contains(&p.keyword_type) || after.contains(&p.number));
}

#[test]
fn empty_lines_and_newline_stripped() {
    let engine = Engine::new();
    let lines = ["let a = 1;", "", "let b = 2;"];
    let spans = highlight(&engine, true, "rust", &lines).expect("rust");
    assert_eq!(spans.len(), 3);
    assert!(spans[1].is_empty());
    for line in &spans {
        for s in line {
            assert!(!s.text.contains('\n'), "{:?}", s.text);
        }
    }
    let joined: Vec<String> = spans
        .iter()
        .map(|l| l.iter().map(|s| s.text.as_str()).collect())
        .collect();
    assert_eq!(joined, lines);
}

#[test]
fn cache_hits_and_threshold() {
    let engine = Engine::new();
    let mut cache = new_highlight_cache();
    let long: Vec<String> = (0..40)
        .map(|i| format!("let v{i} = {i}; // 注释行"))
        .collect();
    let refs: Vec<&str> = long.iter().map(|s| s.as_str()).collect();
    let a = highlight_window(&mut cache, &engine, true, "k1", Some("rust"), &refs).expect("hl");
    let b = highlight_window(&mut cache, &engine, true, "k1", Some("rust"), &refs).expect("hl");
    assert!(Arc::ptr_eq(&a, &b));
    let mut changed = long.clone();
    changed[0] = "let changed = 0;".into();
    let refs2: Vec<&str> = changed.iter().map(|s| s.as_str()).collect();
    let c = highlight_window(&mut cache, &engine, true, "k1", Some("rust"), &refs2).expect("hl");
    assert!(!Arc::ptr_eq(&a, &c));
    let short = ["let x = 1;"];
    let s1 = highlight_window(&mut cache, &engine, true, "k2", Some("rust"), &short).expect("hl");
    let s2 = highlight_window(&mut cache, &engine, true, "k2", Some("rust"), &short).expect("hl");
    assert!(!Arc::ptr_eq(&s1, &s2));
}

#[test]
fn the_schemes_do_not_share_cached_lines() {
    let engine = Engine::new();
    let mut cache = new_highlight_cache();
    let line = "let v = 1; // comment ".repeat(40);
    let lines = [line.as_str()];
    let dark = highlight_window(&mut cache, &engine, true, "k", Some("rust"), &lines).unwrap();
    let light = highlight_window(&mut cache, &engine, false, "k", Some("rust"), &lines).unwrap();
    assert_ne!(colours_of(&dark[0]), colours_of(&light[0]));
}

#[test]
fn shown_lines_lose_their_line_feeds() {
    let span = |text: &str| Span {
        colour: 1,
        text: text.into(),
    };
    let styled = vec![vec![span("a"), span("b\n")], vec![span("\n")]];
    assert_eq!(
        shown_lines(&styled),
        vec![vec![span("a"), span("b")], Vec::new()]
    );
}

#[test]
fn languages_without_a_grammar_have_a_stand_in() {
    assert_eq!(alias("typescript"), alias("ts"));
    assert_eq!(alias("rust"), "rust");
    let rules = scope_rules(code_palette(true));
    assert!(rules.iter().any(|(s, c)| s.contains("comment") && *c == code_palette(true).comment));
}

#[test]
fn ranges_are_the_bytes_of_the_spans() {
    let span = |colour: u32, text: &str| Span {
        colour,
        text: text.into(),
    };
    let lines = vec![
        vec![span(1, "让"), span(2, ""), span(3, " x")],
        Vec::new(),
        vec![span(4, "y")],
    ];
    let range = |from: usize, to: usize, colour: u32| ColourRange { from, to, colour };
    assert_eq!(
        colour_ranges(&lines),
        Some(vec![range(0, 3, 1), range(3, 5, 3), range(7, 8, 4)])
    );
}

#[test]
fn code_blocks_are_coloured_where_the_language_is_known() {
    let engine = Engine::new();
    let mut cache = new_highlight_cache();
    let code = "let a = 1; // 注释\nlet b = 2;\n";
    match code_body(&mut cache, &engine, true, "m", Some("rust"), code) {
        CodeBody::Coloured(ranges) => {
            let comment = code_palette(true).comment;
            let green: String = ranges
                .iter()
                .filter(|r| r.colour == comment)
                .map(|r| &code[r.from..r.to])
                .collect();
            assert_eq!(green, "// 注释");
            assert_eq!(ranges.last().unwrap().to, code.len() - 1);
        }
        CodeBody::Plain => panic!(),
    }
    assert_eq!(
        code_body(&mut cache, &engine, true, "m", Some("rust"), "let a;\r\n"),
        CodeBody::Plain
    );
    assert_eq!(
        code_body(&mut cache, &engine, true, "m", None, code),
        CodeBody::Plain
    );
}

#[test]
fn blocks_are_drawn_or_coloured() {
    let engine = Engine::new();
    let mut cache = new_highlight_cache();
    let code = |lang: &str, closed: bool| Block::Code("graph TD".into(), Some(lang.into()), closed);
    let mut show = |b: &Block, supported: bool| {
        render_block(&mut cache, &engine, true, "m", b, supported)
    };
    assert_eq!(show(&code("Mermaid", true), true), BlockView::Diagram("graph TD".into()));
    let plain = BlockView::Code { text: "graph TD".into(), body: CodeBody::Plain };
    assert_eq!(show(&code("mermaid", false), true), plain);
    assert_eq!(show(&code("mermaid", true), false), plain);
    match show(&code("rust", true), true) {
        BlockView::Code { body: CodeBody::Coloured(ranges), .. } => assert!(!ranges.is_empty()),
        other => panic!("{other:?}"),
    }
    assert_eq!(
        show(&Block::Heading(2, "h".into()), true),
        BlockView::Heading { size: 15, text: "h".into() }
    );
    assert_eq!(
        show(&Block::Item(Some(3), "i".into()), true),
        BlockView::Item { marker: "3. ".into(), text: "i".into() }
    );
    assert_eq!(show(&Block::Rule, true), BlockView::Rule);
}

#[test]
fn lines_of_a_read_card_take_their_spans() {
    let engine = Engine::new();
    let mut cache = new_highlight_cache();
    let mut card = ReadCard {
        path: "a.rs".into(),
        lines: vec![(7, "// c".into()), (8, String::new()), (9, "x".into())],
        total_lines: 9,
        lang: Some("rust".into()),
    };
    let lines = read_lines(&mut cache, &engine, true, "k", &card);
    match &lines[0].content {
        ReadText::Coloured(spans) => {
            assert!(spans.iter().all(|s| s.colour == code_palette(true).comment));
            let text: String = spans.iter().map(|s| s.text.as_str()).collect();
            assert_eq!(text, "// c");
        }
        ReadText::Plain(_) => panic!(),
    }
    assert_eq!(lines[1], ReadLine { number: 8, content: ReadText::Plain(String::new()) });
    assert_eq!(lines[2].number, 9);
    card.lang = None;
    let plain = read_lines(&mut cache, &engine, true, "k", &card);
    assert_eq!(plain[0], ReadLine { number: 7, content: ReadText::Plain("// c".into()) });
    assert_eq!(plain, join_read_lines(&card.lines, None));
}

#[test]
fn a_cache_gives_what_highlighting_gives() {
    let engine = Engine::new();
    let mut cache = new_highlight_cache();
    let long = format!("// {}", "c".repeat(600));
    for lines in [[long.as_str(), "let a = 1;"], ["let b = 2;", long.as_str()]] {
        for dark in [true, false, true] {
            let got = highlight_window(&mut cache, &engine, dark, "k", Some("rust"), &lines);
            assert_eq!(got.as_deref(), highlight(&engine, dark, "rust", &lines).as_ref());
        }
    }
}
