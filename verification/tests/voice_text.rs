use mqtt_broker::config::VoiceOutputConfig;
use mqtt_broker::voice_text::{
    chinese_share, transform_for_tts, CollapseWhitespace, DropBareUrls, DropCodeBlocks, DropEmoji,
    DropInlineCode, DropTables, EnsureChinese, ExpandBulletLists, StripEmphasis, StripHeadings,
    StripMarkdownLinks, Truncate,
};

/// Whether the share of Chinese among the counted characters reaches a ratio.
fn enough(share: (usize, usize), min_ratio: f32) -> bool {
    let (chinese, counted) = share;
    counted == 0 || chinese as f32 / counted as f32 >= min_ratio
}

/// The text that is spoken, with the usual ratio of Chinese.
fn speak(text: &str, cfg: &VoiceOutputConfig) -> String {
    let ok = match chinese_share(text, cfg) {
        Some(share) => enough(share, 0.5),
        None => true,
    };
    transform_for_tts(text, cfg, ok)
}

fn ensure(s: &EnsureChinese, text: &str, cfg: &VoiceOutputConfig, min_ratio: f32) -> String {
    s.apply(text, cfg, enough(s.counts(text), min_ratio))
}

fn cfg() -> VoiceOutputConfig {
    VoiceOutputConfig::default()
}

fn noop_cfg() -> VoiceOutputConfig {
    VoiceOutputConfig {
        enabled: false,
        ..VoiceOutputConfig::default()
    }
}

fn minimal_cfg(keep: &[&str]) -> VoiceOutputConfig {
    let mut c = VoiceOutputConfig {
        enabled: true,
        collapse_whitespace: false,
        ..VoiceOutputConfig::default()
    };
    for key in [
        "strip_emphasis",
        "strip_headings",
        "expand_lists",
        "strip_markdown_links",
        "drop_bare_urls",
        "drop_code",
        "drop_tables",
        "drop_emoji",
    ] {
        if !keep.contains(&key) {
            match key {
                "strip_emphasis" => c.strip_emphasis = false,
                "strip_headings" => c.strip_headings = false,
                "expand_lists" => c.expand_lists = false,
                "strip_markdown_links" => c.strip_markdown_links = false,
                "drop_bare_urls" => c.drop_bare_urls = false,
                "drop_code" => c.drop_code = false,
                "drop_tables" => c.drop_tables = false,
                "drop_emoji" => c.drop_emoji = false,
                _ => unreachable!(),
            }
        }
    }
    c
}


#[test]
fn drop_code_blocks_removes_fenced_block() {
    let s = DropCodeBlocks;
    let c = cfg();
    let out = s.apply("before\n```python\nprint(1)\n```\nafter\n", &c);
    assert!(!out.contains("print"));
    assert!(out.contains("before"));
    assert!(out.contains("after"));
}

#[test]
fn drop_code_blocks_handles_unclosed() {
    let s = DropCodeBlocks;
    let c = cfg();
    let out = s.apply("hello\n```\nworld", &c);
    assert!(!out.contains("world"));
}

#[test]
fn drop_inline_code_strips_backticks() {
    let s = DropInlineCode;
    let c = cfg();
    let out = s.apply("use `list_clients` to query", &c);
    assert_eq!(out, "use list_clients to query");
}

#[test]
fn drop_inline_code_keeps_content_strips_only_backticks() {
    let s = DropInlineCode;
    let c = cfg();
    let out = s.apply("a `b c d e", &c);
    assert_eq!(out, "a b c d e");
}

#[test]
fn drop_tables_removes_pipe_lines() {
    let s = DropTables;
    let c = cfg();
    let input = "intro\n| a | b |\n| - | - |\n| 1 | 2 |\nend\n";
    let out = s.apply(input, &c);
    assert!(!out.contains("|"));
    assert!(out.contains("intro"));
    assert!(out.contains("end"));
}

#[test]
fn drop_bare_urls_replaces_with_link() {
    let s = DropBareUrls;
    let c = cfg();
    let out = s.apply("see https://example.com for details", &c);
    assert!(!out.contains("example.com"));
    assert!(out.contains("链接"));
    assert!(out.contains("see"));
    assert!(out.contains("for details"));
}

#[test]
fn strip_markdown_links_keeps_text() {
    let s = StripMarkdownLinks;
    let c = cfg();
    let out = s.apply("see [the docs](https://x.y/) here", &c);
    assert_eq!(out, "see the docs here");
}

#[test]
fn strip_headings_removes_hash_prefix() {
    let s = StripHeadings;
    let c = cfg();
    let out = s.apply("## 标题\n正文", &c);
    assert!(out.contains("标题"));
    assert!(!out.contains("##"));
}

#[test]
fn strip_emphasis_removes_double_markers() {
    let s = StripEmphasis;
    let c = cfg();
    assert_eq!(s.apply("**重要**的事", &c), "重要的事");
    assert_eq!(s.apply("__bold__ text", &c), "bold text");
}

#[test]
fn expand_bullet_lists_adds_chinese_ordinals() {
    let s = ExpandBulletLists;
    let c = cfg();
    let out = s.apply("- alpha\n- beta\n- gamma\n", &c);
    assert!(out.contains("第一"));
    assert!(out.contains("alpha"));
    assert!(out.contains("第二"));
    assert!(out.contains("beta"));
    assert!(!out.starts_with("-"));
}

#[test]
fn drop_emoji_removes_unicode_blocks() {
    let s = DropEmoji;
    let c = cfg();
    let out = s.apply("hello 🔧 world 🇺🇸 end", &c);
    assert_eq!(out, "hello  world  end");
}

#[test]
fn collapse_whitespace_squashes() {
    let s = CollapseWhitespace;
    let c = cfg();
    let out = s.apply("a   b\n\n\nc", &c);
    assert_eq!(out, "a b c");
}

#[test]
fn truncate_caps_at_max_chars() {
    let s = Truncate;
    let c = VoiceOutputConfig {
        max_chars: 10,
        ..cfg()
    };
    let out = s.apply("你好世界一二三四五六七八九十", &c);
    assert!(out.chars().count() <= 10 + "，后面的内容省略了".chars().count());
    assert!(out.ends_with("省略了"));
}

#[test]
fn truncate_does_not_end_on_half_sentence_punct() {
    let s = Truncate;
    let c = VoiceOutputConfig {
        max_chars: 4,
        ..cfg()
    };
    let out = s.apply("abcd,efgh", &c);
    let body = out.trim_end_matches("，后面的内容省略了");
    assert_eq!(body, "abcd");
    assert!(!body.ends_with(','));
}

#[test]
fn truncate_keeps_terminal_punctuation() {
    let s = Truncate;
    let c = VoiceOutputConfig {
        max_chars: 6,
        ..cfg()
    };
    let out = s.apply("你好世界。", &c);
    assert_eq!(out, "你好世界。");
}

#[test]
fn truncate_trims_only_commas_and_spaces() {
    let s = Truncate;
    let c = VoiceOutputConfig {
        max_chars: 3,
        ..cfg()
    };
    let out = s.apply("你好，世界", &c);
    let body = out.trim_end_matches("，后面的内容省略了");
    assert_eq!(body, "你好");
    assert!(!body.contains('，'));
}


#[test]
fn end_to_end_llm_response_with_code_and_list() {
    let input = r#"当前有 **3 个**客户端连接。

## 详情

- 客户端 A（`mqttv5`，已连 12 秒）
- 客户端 B（`mqttv3.1.1`，已连 5 分钟）
- 客户端 C（已连 1 小时）

文档参考：https://example.com/docs
"#;
    let out = speak(input, &cfg());
    assert!(!out.contains("**"));
    assert!(!out.contains("##"));
    assert!(!out.contains('`'));
    assert!(out.contains("链接"));
    assert!(out.contains("第一"));
    assert!(out.contains("第二"));
    assert!(out.contains("第三"));
    assert!(out.contains("3"));
    assert!(out.contains("12"));
}

#[test]
fn end_to_end_code_block_dropped_completely() {
    let input = "下面是示例代码：\n```python\nprint('hello')\nprint('world')\n```\n代码结束。";
    let out = speak(input, &cfg());
    assert!(!out.contains("print"));
    assert!(!out.contains("python"));
    assert!(out.contains("代码结束"));
}

#[test]
fn end_to_end_table_dropped() {
    let input = "数据：\n| name | count |\n| - | - |\n| a | 1 |\n| b | 2 |\n完。";
    let out = speak(input, &cfg());
    assert!(!out.contains('|'));
    assert!(out.contains("数据"));
    assert!(out.contains("完"));
}

#[test]
fn disabled_cfg_returns_original() {
    let input = "**bold** with `code` and 🔧";
    let out = speak(input, &noop_cfg());
    assert_eq!(out, input);
}

#[test]
fn plain_text_is_spoken_as_it_is() {
    let input = "端口 1883 上有 3 个客户端，broker 正常。";
    assert_eq!(speak(input, &cfg()), input);
}

#[test]
fn empty_input_returns_empty() {
    assert_eq!(speak("", &cfg()), "");
}

#[test]
fn short_input_under_max_chars_passes_through() {
    let input = "你好，连接 3 个客户端。";
    let out = speak(input, &cfg());
    assert_eq!(out, input);
}

#[test]
fn long_input_truncated_with_suffix() {
    let mut input = String::new();
    for _ in 0..30 {
        input.push_str("这里是一段比较长的中文回答，用于测试截断逻辑。");
    }
    let out = speak(&input, &cfg());
    assert!(out.chars().count() < input.chars().count());
    assert!(out.ends_with("省略了"));
}

#[test]
fn minimal_cfg_isolates_single_stage() {
    let c = minimal_cfg(&["drop_code"]);
    let input = "这是 **重要** 的事，详见 [文档](https://x.y) 与 - bullet";
    let out = speak(input, &c);
    assert!(out.contains("**"));
    assert!(out.contains("[文档]"));
    assert!(out.contains("- bullet"));
}


fn zh_cfg() -> VoiceOutputConfig {
    VoiceOutputConfig {
        require_chinese: true,
        ..VoiceOutputConfig::default()
    }
}

#[test]
fn ensure_chinese_disabled_is_noop() {
    let s = EnsureChinese;
    assert!(!s.should_run("Hello world", &cfg()));
    assert!(!s.should_run("中文", &cfg()));
}

#[test]
fn ensure_chinese_pass_action_is_noop() {
    let s = EnsureChinese;
    let c = VoiceOutputConfig {
        require_chinese: true,
        require_chinese_action: "pass".into(),
        ..cfg()
    };
    assert!(!s.should_run("Hello world", &c));
}

#[test]
fn ensure_chinese_strips_latin_when_ratio_below_threshold() {
    let s = EnsureChinese;
    let c = zh_cfg();
    let out = ensure(&s, "Hello 你好", &c, 0.5);
    assert_eq!(out, "你好");
}

#[test]
fn ensure_chinese_keeps_chinese_punctuation() {
    let s = EnsureChinese;
    let c = zh_cfg();
    let out = ensure(&s, "Hello 你好，世界！", &c, 0.5);
    assert!(out.contains("你好"));
    assert!(out.contains("，"));
    assert!(out.contains("！"));
    assert!(!out.contains("Hello"));
}

#[test]
fn ensure_chinese_pure_chinese_passes_through() {
    let s = EnsureChinese;
    let c = zh_cfg();
    let out = ensure(&s, "你好，世界，今天天气不错。", &c, 0.5);
    assert_eq!(out, "你好，世界，今天天气不错。");
}

#[test]
fn ensure_chinese_pure_english_gets_stripped_to_empty() {
    let s = EnsureChinese;
    let c = zh_cfg();
    let out = ensure(&s, "Hello world", &c, 0.5);
    assert_eq!(out, "");
}

#[test]
fn ensure_chinese_ignores_pure_digits_in_denominator() {
    let s = EnsureChinese;
    let c = VoiceOutputConfig {
        require_chinese: true,
        ..cfg()
    };
    let out = ensure(&s, "1883 个客户端", &c, 0.5);
    assert_eq!(out, "1883 个客户端");
}

#[test]
fn ensure_chinese_low_threshold_lets_short_chinese_pass() {
    let s = EnsureChinese;
    let c = VoiceOutputConfig {
        require_chinese: true,
        ..cfg()
    };
    let out = ensure(&s, "Hi 你好呀", &c, 0.2);
    assert_eq!(out, "Hi 你好呀");
}
