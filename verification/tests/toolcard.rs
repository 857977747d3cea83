use dsh_desktop::json::{Json, Number};
use dsh_desktop::toolcard::layout::{
    body_slots, content_lines, copy_label, diff_layout, diff_row_label, expand_label, head_tail,
    read_layout, search_layout, search_recovery_footer, DiffRow, SearchRow, Slot,
};
use dsh_desktop::toolcard::{
    narrow, CardView, DiffCard, DiffHunk, FileGroup, ReadCard, SearchCard,
};

fn convert(v: &serde_json::Value) -> Json {
    match v {
        serde_json::Value::Null => Json::Null,
        serde_json::Value::Bool(b) => Json::Bool(*b),
        serde_json::Value::Number(n) => Json::Number(if let Some(u) = n.as_u64() {
            Number::Unsigned(u)
        } else if let Some(i) = n.as_i64() {
            Number::Negative(i)
        } else {
            Number::Float(n.as_f64().unwrap().to_bits())
        }),
        serde_json::Value::String(s) => Json::Str(s.clone()),
        serde_json::Value::Array(a) => Json::Array(a.iter().map(convert).collect()),
        serde_json::Value::Object(o) => {
            Json::Object(o.iter().map(|(k, v)| (k.clone(), convert(v))).collect())
        }
    }
}

fn json(text: &str) -> Json {
    convert(&serde_json::from_str(text).unwrap())
}

#[test]
fn narrow_valid_views() {
    let v = narrow(&json(
        r#"{ "card": "read", "path": "a.rs", "offset": 1,
            "lines": [ { "number": 1, "text": "x" } ],
            "totalLines": 9, "lang": "rust" }"#,
    ))
    .expect("read");
    match v {
        CardView::Read(r) => {
            assert_eq!(r.path, "a.rs");
            assert_eq!(r.total_lines, 9);
            assert_eq!(r.lines, vec![(1, "x".to_string())]);
        }
        _ => panic!(),
    }

    match narrow(&json(
        r#"{ "card": "search", "shape": "searchMatches", "truncated": true, "total": 10,
            "files": [ { "path": "a.rs", "matches": [ { "number": 2, "text": "m" } ] } ] }"#,
    ))
    .expect("matches")
    {
        CardView::Search(SearchCard::Matches {
            files,
            truncated,
            total,
        }) => {
            assert!(truncated);
            assert_eq!(total, 10);
            assert_eq!(files[0].matches, vec![(2, "m".to_string())]);
        }
        _ => panic!(),
    }

    assert!(matches!(
        narrow(&json(
            r#"{ "card": "terminal", "exitCode": 3, "signal": null, "cwd": "/w" }"#
        ))
        .unwrap(),
        CardView::Terminal(_)
    ));
    assert!(matches!(
        narrow(&json(
            r#"{ "card": "diff",
                "diffs": [ { "path": "a", "oldText": null, "newText": "n" } ] }"#
        ))
        .unwrap(),
        CardView::Diff(_)
    ));
}

#[test]
fn narrow_rejects_invalid_views() {
    for bad in [
        r#"{}"#,
        r#"{ "card": "web" }"#,
        r#"{ "card": "read" }"#,
        r#"{ "card": "read", "path": 3, "offset": 1, "lines": [], "totalLines": 1 }"#,
        r#"{ "card": "search", "shape": "weird", "truncated": false, "total": 0 }"#,
        r#"{ "card": "diff", "diffs": [] }"#,
    ] {
        assert!(narrow(&json(bad)).is_none(), "{bad}");
    }
}

#[test]
fn head_tail_split() {
    let ht = head_tail(20, 8, false);
    assert_eq!((ht.hidden, ht.head, ht.tail), (12, 4, 4));
    assert!(ht.capped);
    let ht = head_tail(8, 8, false);
    assert_eq!(ht.hidden, 0);
    assert!(!ht.capped);
    let ht = head_tail(20, 8, true);
    assert!(!ht.capped);
    assert_eq!(ht.hidden, 12);
}

#[test]
fn content_lines_terminator_rule() {
    assert!(content_lines("").is_empty());
    assert_eq!(content_lines("a\n"), vec!["a"]);
    assert_eq!(content_lines("a\nb"), vec!["a", "b"]);
    assert_eq!(content_lines("a\n\n"), vec!["a", ""]);
}

#[test]
fn capped_bodies_show_both_ends() {
    assert_eq!(
        body_slots(6, 4, false),
        vec![
            Slot::Row(0),
            Slot::Row(1),
            Slot::Expand,
            Slot::Row(4),
            Slot::Row(5)
        ]
    );
    assert_eq!(
        body_slots(2, 4, false),
        vec![Slot::Row(0), Slot::Row(1)]
    );
    assert_eq!(body_slots(6, 4, true).len(), 7);
}

#[test]
fn labels_of_buttons() {
    assert!(expand_label(0, false).is_none());
    assert_eq!(expand_label(12, false).as_deref(), Some("… 其余 12 行"));
    assert_eq!(expand_label(12, true).as_deref(), Some("收起"));
    assert_eq!(copy_label(true), "复制成功");
    assert_eq!(copy_label(false), "复制");
}

#[test]
fn read_cards_copy_their_lines() {
    let card = ReadCard {
        path: "a.rs".into(),
        lines: vec![(3, "x".into()), (4, "y".into())],
        total_lines: 9,
        lang: None,
    };
    let l = read_layout(&card, false);
    assert_eq!(l.copy_text.as_deref(), Some("x\ny"));
    assert_eq!(l.slots, vec![Slot::Row(0), Slot::Row(1)]);
    assert_eq!(l.window_note.as_deref(), Some("显示 2 / 9 行"));
    assert!(l.expand_label.is_none());
}

#[test]
fn folded_search_groups_show_their_head_only() {
    let card = SearchCard::Matches {
        files: vec![FileGroup {
            path: "a.rs".into(),
            matches: vec![(2, "m".into()), (5, "n".into())],
        }],
        truncated: false,
        total: 2,
    };
    let open = search_layout(&card, "k", false, &[]);
    assert_eq!(open.rows.len(), 3);
    assert_eq!(open.summary, "2 处匹配 · 1 个文件");
    assert_eq!(open.copy_text.as_deref(), Some("a.rs\n2: m\n5: n"));
    assert_eq!(
        open.rows[1],
        SearchRow::Match {
            number: 2,
            line: "m".into(),
            group: 0
        }
    );
    let paths = SearchCard::Paths {
        paths: vec!["a".into(), "b".into()],
        truncated: false,
        total: 2,
    };
    let l = search_layout(&paths, "k", false, &[]);
    assert_eq!(l.rows, vec![SearchRow::Path("a".into()), SearchRow::Path("b".into())]);
    assert_eq!(l.copy_text.as_deref(), Some("a\nb"));
}

#[test]
fn a_recovery_footer_is_the_truncation_note() {
    assert!(search_recovery_footer(None).is_none());
    assert_eq!(
        search_recovery_footer(Some("a\n(truncated, 10 more)\nb")).as_deref(),
        Some("(truncated, 10 more)")
    );
    assert!(search_recovery_footer(Some("plain")).is_none());
}

#[test]
fn diffs_list_removed_before_added_lines() {
    let card = DiffCard {
        diffs: vec![DiffHunk {
            path: "a".into(),
            old_text: Some("x\n".into()),
            new_text: "y\nz\n".into(),
        }],
    };
    let l = diff_layout(&card, false);
    assert_eq!(
        l.rows,
        vec![
            DiffRow::Path("a".into()),
            DiffRow::Del("x".into()),
            DiffRow::Add("y".into()),
            DiffRow::Add("z".into()),
        ]
    );
    assert_eq!(l.footer, "└ +2 -1 · 1 file");
    assert_eq!(diff_row_label(&l.rows[1]), "- x");
    assert_eq!(diff_row_label(&l.rows[2]), "+ y");
}
