use dsh_desktop::json::{Json, Number};
use dsh_desktop::reference::rank::{
    basename, is_subsequence, rank_file_candidates, rank_lowered_files, rank_session_candidates,
    FileCandidate, SessionCandidate,
};
use dsh_desktop::reference::session::{
    decode_session_uri, parse_session_references, session_mention, session_uri,
};
use dsh_desktop::reference::snapshot::{
    fit_budget, frame_snapshot, session_snapshot, SnapshotSession,
};
use dsh_desktop::reference::spans::{scan_at_tokens, AtKind};
use dsh_desktop::reference::token::{active_at_token, at_hit, file_mention};
use dsh_desktop::reference::workspace::{excluded_dir, DirEntry, WorkspaceScan};

fn convert(v: &serde_json::Value) -> Json {
    match v {
        serde_json::Value::Null => Json::Null,
        serde_json::Value::Bool(b) => Json::Bool(*b),
        serde_json::Value::Number(n) => Json::Number(if let Some(u) = n.as_u64() {
            Number::Unsigned(u)
        } else if let Some(i) = n.as_i64() {
            Number::Negative(i)
        } else {
            Number::Float(n.as_f64().unwrap().to_bits())
        }),
        serde_json::Value::String(s) => Json::Str(s.clone()),
        serde_json::Value::Array(a) => Json::Array(a.iter().map(convert).collect()),
        serde_json::Value::Object(o) => {
            Json::Object(o.iter().map(|(k, v)| (k.clone(), convert(v))).collect())
        }
    }
}

fn json(text: &str) -> Json {
    convert(&serde_json::from_str(text).unwrap())
}

fn unconvert(j: &Json) -> serde_json::Value {
    match j {
        Json::Null => serde_json::Value::Null,
        Json::Bool(b) => serde_json::Value::Bool(*b),
        Json::Number(Number::Unsigned(n)) => serde_json::Value::from(*n),
        Json::Number(Number::Negative(n)) => serde_json::Value::from(*n),
        Json::Number(Number::Float(bits)) => serde_json::Value::from(f64::from_bits(*bits)),
        Json::Str(s) => serde_json::Value::String(s.clone()),
        Json::Array(a) => serde_json::Value::Array(a.iter().map(unconvert).collect()),
        Json::Object(o) => {
            serde_json::Value::Object(o.iter().map(|(k, v)| (k.clone(), unconvert(v))).collect())
        }
    }
}

fn snapshot_text(refs: &[SnapshotSession], messages: &[Json]) -> String {
    let doc = session_snapshot(refs, messages);
    frame_snapshot(&serde_json::to_string(&unconvert(&doc)).unwrap())
}

fn one_session() -> Vec<SnapshotSession> {
    vec![SnapshotSession {
        session_id: "s1".into(),
        label: "S1".into(),
        retained: 0,
        original: 0,
    }]
}

fn file(path: &str, is_dir: bool) -> FileCandidate {
    FileCandidate {
        path: path.into(),
        is_dir,
    }
}

#[test]
fn at_token_boundaries() {
    assert!(active_at_token("@src", 4).is_some());
    assert!(active_at_token("看 @src", 5).is_some());
    assert!(active_at_token("a @src", 5).is_some());
    assert!(active_at_token("user@host", 9).is_none());
    assert!(active_at_token("a @ b", 5).is_none());
}

#[test]
fn at_token_quoted() {
    let t = active_at_token("@\"docs/a b", 10).unwrap();
    assert!(t.quoted);
    assert_eq!(t.query, "docs/a b");
}

#[test]
fn at_token_span_and_query() {
    let t = active_at_token("看 @src/main", 13).unwrap();
    assert_eq!(t.query, "src/main");
    assert_eq!(t.prefix, "@src/main");
}

#[test]
fn at_hit_gives_the_place_of_the_token() {
    let h = at_hit("看 @src/main", 13).unwrap();
    assert_eq!(h.start, 4);
    assert_eq!(h.caret, 13);
    assert_eq!(h.token.query, "src/main");
    assert!(at_hit("user@host", 9).is_none());
}

#[test]
fn mention_codec_roundtrip() {
    let mention = session_mention("M2", "abc-123");
    assert!(mention.starts_with("@[M2](dsh-session:"));
    let parsed = parse_session_references(&mention);
    assert_eq!(parsed, vec![("M2".to_string(), "abc-123".to_string())]);
    let uri = session_uri("xyz");
    assert_eq!(
        parse_session_references(&format!("看 {uri}")),
        vec![(uri.clone(), "xyz".to_string())]
    );
    assert_eq!(decode_session_uri(&uri), Some("xyz".to_string()));
}

#[test]
fn session_uris_decode_to_the_id() {
    assert_eq!(session_uri("xyz"), "dsh-session:eyJzZXNzaW9uSWQiOiJ4eXoifQ");
    for id in ["", "a", "ab", "会话/1", "a+b?c", "\"quoted\""] {
        assert_eq!(decode_session_uri(&session_uri(id)), Some(id.to_string()));
    }
    assert_eq!(decode_session_uri("dsh-session:***"), None);
    assert_eq!(decode_session_uri("other:eHl6"), None);
}

#[test]
fn file_mention_quotes_spaces() {
    assert_eq!(file_mention("a b.md"), "@\"a b.md\"");
    assert_eq!(file_mention("main.rs"), "@main.rs");
}

#[test]
fn snapshot_projects_and_escapes() {
    let msgs = vec![
        json(r#"{ "role": "user", "content": "第一问" }"#),
        json(r#"{ "role": "assistant", "content": "答" }"#),
        json(r#"{ "role": "tool", "output": "不该出现" }"#),
        json(r#"{ "role": "user", "content": [ { "type": "text", "text": "块文本" } ] }"#),
    ];
    let snap = snapshot_text(&one_session(), &msgs);
    assert!(snap.starts_with("<referenced-sessions>"));
    assert!(snap.contains("第一问"));
    assert!(snap.contains("块文本"));
    assert!(!snap.contains("tool"));
    assert!(!snap.contains("不该出现"));
}

#[test]
fn snapshot_escapes_less_than() {
    let msgs = vec![json(r#"{ "role": "user", "content": "<script>" }"#)];
    let snap = snapshot_text(&one_session(), &msgs);
    assert!(snap.contains("\\u003cscript>"));
    assert!(!snap.contains("<script>"));
}

#[test]
fn snapshot_budget_truncates() {
    let mut msgs = Vec::new();
    for i in 0..200 {
        let text = format!("msg {i} {}", "x".repeat(1000));
        msgs.push(Json::Object(vec![
            ("role".into(), Json::Str("user".into())),
            ("content".into(), Json::Str(text)),
        ]));
    }
    let snap = snapshot_text(&one_session(), &msgs);
    assert!(snap.len() < 200_000, "{}", snap.len());
}

#[test]
fn a_small_conversation_keeps_all_messages() {
    let m = vec![("user".to_string(), "a".to_string())];
    let (kept, truncated) = fit_budget(m);
    assert_eq!(kept, vec![("user".to_string(), "a".to_string())]);
    assert!(!truncated);
}

#[test]
fn workspace_scan_lists_and_excludes() {
    let mut scan = WorkspaceScan::new();
    let first = scan.next_dir().unwrap();
    assert_eq!(first, "");
    let entry = |name: &str, is_dir: bool| DirEntry {
        name: name.into(),
        is_dir,
    };
    scan.visit(
        &first,
        &[
            entry("src", true),
            entry("node_modules", true),
            entry(".git", true),
            entry("README.md", false),
        ],
    );
    let next = scan.next_dir().unwrap();
    assert_eq!(next, "src");
    scan.visit(&next, &[entry("main.rs", false)]);
    assert!(scan.next_dir().is_none());
    let paths: Vec<&str> = scan.found.iter().map(|c| c.path.as_str()).collect();
    assert!(paths.contains(&"README.md"));
    assert!(paths.contains(&"src/main.rs"));
    assert!(!paths.iter().any(|p| p.contains("node_modules")));
    assert!(!paths.iter().any(|p| p.starts_with('.')));
    assert!(excluded_dir("node_modules"));
    assert!(!excluded_dir("src"));
}

#[test]
fn rank_file_matches_basename_precedence() {
    let cands = vec![
        file("src/main.rs", false),
        file("main.rs", false),
        file("src/lib.rs", false),
    ];
    let exact = rank_file_candidates("main.rs", &cands);
    assert_eq!(exact[0].path, "main.rs");
    let prefix = rank_file_candidates("main", &cands);
    assert!(prefix[0].path == "main.rs" || prefix[0].path == "src/main.rs");
    let all = rank_file_candidates("", &cands);
    assert_eq!(all.len(), 3);
}

#[test]
fn an_empty_query_lists_directories_first() {
    let cands = vec![
        file("bb.rs", false),
        file("a-long.rs", false),
        file("z", true),
        file("B.rs", false),
        file("c", true),
    ];
    let paths: Vec<String> = rank_file_candidates("", &cands).into_iter().map(|c| c.path).collect();
    assert_eq!(paths, ["c", "z", "B.rs", "a-long.rs", "bb.rs"]);
    let many: Vec<_> = (0..30).rev().map(|n| file(&format!("f{n:02}"), false)).collect();
    let hits = rank_file_candidates("", &many);
    assert_eq!(hits.len(), 20);
    assert_eq!((hits[0].path.as_str(), hits[19].path.as_str()), ("f00", "f19"));
}

#[test]
fn mentions_of_files_are_found_again() {
    for path in ["src/main.rs", "a b/c d.txt", "x y/", "with space.", "名 字", "a@b"] {
        let mention = file_mention(path);
        let tokens = scan_at_tokens(&mention);
        assert_eq!(tokens.len(), 1, "{path}");
        assert_eq!(tokens[0].kind, AtKind::File);
        assert_eq!(tokens[0].label, path);
        assert_eq!((tokens[0].start, tokens[0].end), (0, mention.len()));
    }
}

#[test]
fn ranking_ignores_case() {
    let cands = vec![file("src/Main.rs", false), file("other.txt", false)];
    let hits = rank_file_candidates("MAIN", &cands);
    assert_eq!(hits.len(), 1);
    assert_eq!(hits[0].path, "src/Main.rs");
}

#[test]
fn ranking_of_lowered_paths_drops_misses() {
    let cands = vec![file("B/x.rs", false), file("a/y.rs", false)];
    let bases = vec!["x.rs".to_string(), "y.rs".to_string()];
    let paths = vec!["b/x.rs".to_string(), "a/y.rs".to_string()];
    let hits = rank_lowered_files("x.rs", &bases, &paths, &cands);
    assert_eq!(hits.len(), 1);
    assert_eq!(hits[0].path, "B/x.rs");
}

#[test]
fn subsequences_and_basenames() {
    assert!(is_subsequence("mn", "main"));
    assert!(!is_subsequence("nm", "main"));
    assert!(is_subsequence("", "main"));
    assert_eq!(basename("src/main.rs"), "main.rs");
    assert_eq!(basename("main.rs"), "main.rs");
}

#[test]
fn sessions_of_the_same_directory_come_first() {
    let s = |id: &str, label: &str, same: bool| SessionCandidate {
        session_id: id.into(),
        label: label.into(),
        same_cwd: same,
    };
    let cands = vec![s("1", "alpha", false), s("2", "alpha", true)];
    let r = rank_session_candidates("ALPHA", Some("/w"), &cands);
    assert_eq!(r.len(), 2);
    assert_eq!(r[0].session_id, "2");
    assert!(rank_session_candidates("zzz", None, &cands).is_empty());
}

#[test]
fn scan_at_tokens_files_and_folders() {
    let text = "看 @docs/design.md 和 @src/ 这两个";
    let toks = scan_at_tokens(text);
    assert_eq!(toks.len(), 2);
    assert_eq!(toks[0].kind, AtKind::File);
    assert_eq!(toks[0].label, "docs/design.md");
    assert_eq!(&text[toks[0].start..toks[0].end], "@docs/design.md");
    assert_eq!(toks[1].kind, AtKind::Folder);
    assert_eq!(&text[toks[1].start..toks[1].end], "@src/");
}

#[test]
fn scan_at_tokens_quoted_and_punct() {
    let toks = scan_at_tokens("读 @\"docs/a b.md\" 内容");
    assert_eq!(toks.len(), 1);
    assert_eq!(toks[0].kind, AtKind::File);
    assert_eq!(toks[0].label, "docs/a b.md");
    let toks = scan_at_tokens("参考 @README.md。");
    assert_eq!(toks.len(), 1);
    assert_eq!(toks[0].label, "README.md");
    assert_eq!(
        &"参考 @README.md。"[toks[0].start..toks[0].end],
        "@README.md"
    );
}

#[test]
fn scan_at_tokens_session() {
    let mention = session_mention("M2", "abc-123");
    let text = format!("引 {mention} 分析");
    let toks = scan_at_tokens(&text);
    assert_eq!(toks.len(), 1);
    assert_eq!(toks[0].kind, AtKind::Session);
    assert_eq!(toks[0].label, "M2");
}

#[test]
fn scan_at_tokens_ignores_email() {
    let toks = scan_at_tokens("联系 user@host 或 a@b");
    assert_eq!(toks.len(), 0);
}

#[test]
fn the_same_mention_twice_gives_two_tokens() {
    let mention = session_mention("M2", "abc-123");
    let text = format!("{mention} {mention}");
    let toks = scan_at_tokens(&text);
    assert_eq!(toks.len(), 2);
    assert!(toks[0].end <= toks[1].start);
}

#[test]
fn a_scan_goes_level_by_level() {
    let entry = |name: &str, is_dir: bool| DirEntry {
        name: name.into(),
        is_dir,
    };
    let mut scan = WorkspaceScan::new();
    while let Some(dir) = scan.next_dir() {
        let listing = match dir.as_str() {
            "" => vec![entry("a", true), entry("b", true), entry("c.rs", false)],
            "a" => vec![entry("deep", true), entry("c.rs", false)],
            "b" => vec![entry("deep", true)],
            _ => vec![entry("c.rs", false)],
        };
        scan.visit(&dir, &listing);
    }
    let paths: Vec<&str> = scan.found.iter().map(|c| c.path.as_str()).collect();
    assert_eq!(
        paths,
        vec![
            "a",
            "b",
            "c.rs",
            "a/deep",
            "a/c.rs",
            "b/deep",
            "a/deep/c.rs",
            "b/deep/c.rs"
        ]
    );
    let depths: Vec<usize> = paths.iter().map(|p| p.matches('/').count()).collect();
    assert!(depths.windows(2).all(|w| w[0] <= w[1]));
    for (i, path) in paths.iter().enumerate() {
        assert!(!paths[..i].contains(path));
        if let Some((parent, _)) = path.rsplit_once('/') {
            assert!(paths[..i].contains(&parent));
        }
    }
}
