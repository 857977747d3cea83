use dsh_desktop::json::{Json, Number};
use dsh_desktop::shell::statusbar::{
    active_provider_id, billing_badge, billing_card, fmt_ms, fmt_tok_k, reset_text, reset_time,
    stats_line, BillingBadge, LocalTime,
};

fn convert(v: &serde_json::Value) -> Json {
    match v {
        serde_json::Value::Null => Json::Null,
        serde_json::Value::Bool(b) => Json::Bool(*b),
        serde_json::Value::Number(n) => Json::Number(if let Some(u) = n.as_u64() {
            Number::Unsigned(u)
        } else if let Some(i) = n.as_i64() {
            Number::Negative(i)
        } else {
            Number::Float(n.as_f64().unwrap().to_bits())
        }),
        serde_json::Value::String(s) => Json::Str(s.clone()),
        serde_json::Value::Array(a) => Json::Array(a.iter().map(convert).collect()),
        serde_json::Value::Object(o) => {
            Json::Object(o.iter().map(|(k, v)| (k.clone(), convert(v))).collect())
        }
    }
}

fn json(text: &str) -> Json {
    convert(&serde_json::from_str(text).unwrap())
}

#[test]
fn fmt_ms_buckets() {
    assert_eq!(fmt_ms(0), "—");
    assert_eq!(fmt_ms(120), "120ms");
    assert_eq!(fmt_ms(2400), "2.4s");
}

#[test]
fn fmt_tok_k_buckets() {
    assert_eq!(fmt_tok_k(0), "0.0k");
    assert_eq!(fmt_tok_k(860), "0.9k");
    assert_eq!(fmt_tok_k(12_400), "12.4k");
    assert_eq!(fmt_tok_k(1_280_000), "1.3M");
}

#[test]
fn spans_and_counts_round_as_binary64() {
    for n in 0..4000u64 {
        let ms = n as i64;
        let want = if ms >= 1000 {
            format!("{:.1}s", ms as f64 / 1000.0)
        } else if ms > 0 {
            format!("{ms}ms")
        } else {
            "—".to_string()
        };
        assert_eq!(fmt_ms(ms), want);
        assert_eq!(fmt_tok_k(n), format!("{:.1}k", n as f64 / 1000.0));
    }
    for n in [1_000_000, 1_050_000, 1_150_000, 9_949_999, 9_950_000, u64::MAX] {
        assert_eq!(fmt_tok_k(n), format!("{:.1}M", n as f64 / 1_000_000.0));
    }
    assert_eq!(fmt_ms(-5), "—");
    assert_eq!(fmt_ms(i64::MAX), format!("{:.1}s", i64::MAX as f64 / 1000.0));
}

#[test]
fn statistics_of_a_session() {
    assert_eq!(stats_line(None), "");
    assert_eq!(stats_line(Some(&json(r#"{"turns":0}"#))), "");
    let s = json(
        r#"{"turns":2,"steps":5,"llmMs":2400,"toolMs":120,"firstTokenMs":0,
            "tokensPerSecond":30,"cacheHitPercent":90,"inputTokens":12400,"outputTokens":860}"#,
    );
    assert_eq!(
        stats_line(Some(&s)),
        "2 轮 · 5 步 · LLM 2.4s · 工具调用 120ms · 首 token 平均 — · 30 tok/s · 缓存命中 90% · 输入 12.4k · 输出 0.9k"
    );
}

fn snapshot(cache: &str) -> Json {
    json(&format!(
        r#"{{"defaultProvider":"d","workspaceProviders":{{"w":"p"}},
            "providers":[{{"id":"p","billing_cache":{cache}}}]}}"#
    ))
}

#[test]
fn the_provider_of_the_workspace_is_in_force() {
    let s = snapshot("null");
    assert_eq!(active_provider_id(&s, &Some("w".into())), "p");
    assert_eq!(active_provider_id(&s, &Some("x".into())), "d");
    assert_eq!(active_provider_id(&s, &None), "d");
    assert_eq!(active_provider_id(&Json::Null, &None), "");
}

#[test]
fn badges_of_billing() {
    let w = Some("w".to_string());
    let s = snapshot(r#"{"kind":"balance","amount":"3.50","currency":"USD"}"#);
    assert_eq!(
        billing_badge(&s, &w),
        Some(BillingBadge::Balance("¥ 3.50 USD".into()))
    );
    let s = snapshot(r#"{"kind":"balance","amount":"3.50"}"#);
    assert_eq!(
        billing_badge(&s, &w),
        Some(BillingBadge::Balance("¥ 3.50".into()))
    );
    let s = snapshot(r#"{"kind":"usage","pct_5h":12}"#);
    assert_eq!(
        billing_badge(&s, &w),
        Some(BillingBadge::Usage {
            pct_5h: Some(12),
            pct_7d: None
        })
    );
    assert_eq!(billing_badge(&snapshot(r#"{"kind":"usage"}"#), &w), None);
    assert_eq!(billing_badge(&snapshot("null"), &w), None);
    assert_eq!(billing_badge(&s, &None), None);
}

#[test]
fn reset_times_are_dates_or_times_of_day() {
    let t = LocalTime {
        month: 3,
        day: 9,
        hour: 7,
        minute: 5,
    };
    assert_eq!(reset_text(t, true), "3月9日");
    assert_eq!(reset_text(t, false), "07:05");
}

#[test]
fn reset_times_exist_where_the_calendar_does() {
    let first = -8_334_601_228_800_000i64;
    let last = 8_210_266_876_799_999i64;
    for ms in [first, last, 0, 1_700_000_000_000] {
        let text = reset_time(&ms.to_string(), false).unwrap();
        assert_eq!(text.len(), 5);
        assert_eq!(&text[2..3], ":");
        assert!(reset_time(&ms.to_string(), true).unwrap().ends_with('日'));
    }
    assert_eq!(reset_time(&(first - 1).to_string(), false), None);
    assert_eq!(reset_time(&(last + 1).to_string(), false), None);
    assert_eq!(reset_time("soon", false), None);
    assert_eq!(reset_time("", true), None);
}

#[test]
fn the_billing_card_has_a_block_for_each_window() {
    let w = Some("w".to_string());
    let s = snapshot(r#"{"kind":"usage","pct_5h":120,"pct_7d":40,"resets":"0","resets_7d":"x"}"#);
    let blocks = billing_card(&s, &w);
    assert_eq!(blocks.len(), 2);
    assert_eq!(blocks[0].label, "5 小时");
    assert_eq!(blocks[0].pct_text, "120%");
    assert_eq!(blocks[0].filled, 100);
    assert!(blocks[0].resets.as_ref().unwrap().starts_with("· "));
    assert_eq!(blocks[1].label, "1 周");
    assert_eq!(blocks[1].filled, 40);
    assert_eq!(blocks[1].resets, None);
    assert!(billing_card(&Json::Null, &None).is_empty());
}

#[test]
fn reset_times_are_less_than_a_day_from_the_moment() {
    // Noon on the 15th of a month, on a leap day and before 1970.
    for (ms, days) in [
        (1_700_049_600_000i64, ["11月14日", "11月15日", "11月16日"]),
        (1_709_208_000_000, ["2月28日", "2月29日", "3月1日"]),
        (-43_200_000, ["12月30日", "12月31日", "1月1日"]),
    ] {
        let day = reset_time(&ms.to_string(), true).unwrap();
        assert!(days.contains(&day.as_str()), "{}", day);
    }
    let later = |ms: i64| reset_time(&ms.to_string(), false).unwrap();
    let clock = |text: &str| {
        text[..2].parse::<i64>().unwrap() * 60 + text[3..].parse::<i64>().unwrap()
    };
    let first = clock(&later(1_700_049_600_000));
    assert_eq!(clock(&later(1_700_049_600_000 + 61 * 60_000)), (first + 61) % 1440);
}
