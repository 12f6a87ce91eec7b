use sitegen::error::Error;
use sitegen::template::{
    find_shortcode, template, template_within, Context, Expansion, Replacement, Shortcode, Step,
    TemplateCache,
};

#[test]
fn test_find_shortcode_command() {
    let input = "{%%}";
    let (start, end) = find_shortcode(input).unwrap();
    assert_eq!((0, 4), (start, end));
    assert_eq!(input, &input[start..end]);
}

#[test]
fn test_find_shortcode_tag() {
    let input = "{{}}";
    let (start, end) = find_shortcode(input).unwrap();
    assert_eq!((0, 4), (start, end));
    assert_eq!(input, &input[start..end]);
}

#[test]
fn test_always_find_first_shortcode() {
    let input = "{{}}{%%}";
    let (start, end) = find_shortcode(input).unwrap();
    assert_eq!((0, 4), (start, end));

    let input = "{%%}{{}}";
    let (start, end) = find_shortcode(input).unwrap();
    assert_eq!((0, 4), (start, end));
}

#[test]
fn test_shortcode_surrounded() {
    let input = "abcd{{ 1234 }}asdf";
    let (start, end) = find_shortcode(input).unwrap();
    assert_eq!((4, 14), (start, end));
}

#[test]
fn test_shortcode_after_curly_braces() {
    let input = "{}{%%}";
    let (start, end) = find_shortcode(input).unwrap();
    assert_eq!((2, 6), (start, end));

    let input = "{}hel{lo{% include \"test.html\" %}";
    let (start, end) = find_shortcode(input).unwrap();
    assert_eq!((8, 33), (start, end));
}

#[test]
fn test_shortcode_last() {
    let input = "test{";
    assert!(find_shortcode(input).is_none());
}

#[test]
fn test_parse_include_shortcode() {
    let input = "{% include \"folder/head.html\" %}";
    let shortcode: Shortcode = input.parse().unwrap();
    assert_eq!(Shortcode::Include("folder/head.html".into()), shortcode);
}

#[test]
fn test_existing_tag() {
    let input = "{{ test }}";
    let shortcode: Shortcode = input.parse().unwrap();
    let mut ctx = Context::new();
    ctx.insert("test", "value".to_string());
    assert_eq!(
        Replacement::Text("value".to_string()),
        shortcode.to_html(&ctx).unwrap()
    );
}

#[test]
fn test_nonexistant_tag() {
    let input = "{{ test }}";
    let shortcode: Shortcode = input.parse().unwrap();
    assert!(shortcode.to_html(&Context::new()).is_err());
}

#[test]
fn test_expand_existing_tag() {
    let mut ctx = Context::new();
    ctx.insert("test", "value".to_string());
    let html = template(&ctx, &TemplateCache::new(), "{{ test }}".to_string()).unwrap();
    assert_eq!("value", html);
}

#[test]
fn test_expand_missing_tag() {
    let r = template(&Context::new(), &TemplateCache::new(), "{{ test }}".to_string());
    assert!(matches!(r, Err(Error::TagNotFound(name)) if name == "test"));
}

#[test]
fn test_span_found_before_failed_resolution() {
    let input = "abcd{{ 1234 }}asdf";
    let (start, end) = find_shortcode(input).unwrap();
    assert_eq!("{{ 1234 }}", &input[start..end]);
    let r = template(&Context::new(), &TemplateCache::new(), input.to_string());
    assert!(matches!(r, Err(Error::TagNotFound(name)) if name == "1234"));
}

#[test]
fn test_literal_text_unchanged() {
    let input = "<p>no shortcode here, only a lone { and } and %}</p>\n";
    let html = template(&Context::new(), &TemplateCache::new(), input.to_string()).unwrap();
    assert_eq!(input, html);
    assert_eq!("", template(&Context::new(), &TemplateCache::new(), String::new()).unwrap());
}

#[test]
fn test_literal_text_keeps_its_order() {
    let mut ctx = Context::new();
    ctx.insert("a", "".to_string());
    ctx.insert("b", "".to_string());
    let html = template(
        &ctx,
        &TemplateCache::new(),
        "one {{ a }}two {{ b }}three".to_string(),
    )
    .unwrap();
    assert_eq!("one two three", html);
}

#[test]
fn test_nested_expansion() {
    let mut ctx = Context::new();
    ctx.insert("outer", "[{{ inner }}]".to_string());
    ctx.insert("inner", "x".to_string());
    let mut files = TemplateCache::new();
    files.insert("head.html", "<head>{{ outer }}</head>".to_string());
    let html = template(
        &ctx,
        &files,
        "a{% include \"head.html\" %}b{{inner}}c".to_string(),
    )
    .unwrap();
    assert_eq!("a<head>[x]</head>bxc", html);
}

#[test]
fn test_replacement_joins_following_text() {
    let mut ctx = Context::new();
    ctx.insert("a", "{{".to_string());
    ctx.insert("b", "!".to_string());
    let html = template(&ctx, &TemplateCache::new(), "{{ a }} b }}".to_string()).unwrap();
    assert_eq!("!", html);
}

#[test]
fn test_missing_file() {
    let r = template(
        &Context::new(),
        &TemplateCache::new(),
        "{% include \"gone.html\" %}".to_string(),
    );
    assert!(matches!(r, Err(Error::IncludeShortcode(path, _)) if path == "gone.html"));
}

#[test]
fn test_malformed_shortcodes() {
    for input in [
        "{% include test.html %}",
        "{% import \"test.html\" %}",
        "{% include \"test.html %}",
        "{% include \" %}",
        "{%%}",
        "{{ x }",
        "{ x }}",
        "",
        "{{}",
    ] {
        let r: Result<Shortcode, Error> = input.parse();
        assert!(matches!(r, Err(Error::ParseShortcode(text)) if text == input));
    }
    let r = template(&Context::new(), &TemplateCache::new(), "a{% nothing %}b".to_string());
    assert!(matches!(r, Err(Error::ParseShortcode(text)) if text == "{% nothing %}"));
}

#[test]
fn test_parse_forms() {
    assert_eq!(Shortcode::Tag("".into()), Shortcode::parse("{{}}").unwrap());
    assert_eq!(Shortcode::Tag("a b".into()), Shortcode::parse("{{ \t a b\u{a0}\n}}").unwrap());
    assert_eq!(Shortcode::Tag("{ a".into()), Shortcode::parse("{{{ a }}").unwrap());
    assert_eq!(Shortcode::Include("".into()), Shortcode::parse("{%include\"\"%}").unwrap());
    assert_eq!(
        Shortcode::Include(" a\".html ".into()),
        Shortcode::parse("{%  include   \" a\".html \"  %}").unwrap()
    );
}

#[test]
fn test_find_shortcode_byte_offsets() {
    let input = "é{{ ü }}ß{{}}";
    let (start, end) = find_shortcode(input).unwrap();
    assert_eq!((2, 10), (start, end));
    assert_eq!("{{ ü }}", &input[start..end]);
    assert_eq!(None, find_shortcode("{{ never closed {% nor this"));
    assert_eq!(Some((3, 8)), find_shortcode("{{ {%x%}"));
    assert_eq!(Some((0, 5)), find_shortcode("{{{}}"));
    assert_eq!(None, find_shortcode("{%}"));
}

#[test]
fn test_steps() {
    let mut ctx = Context::new();
    ctx.insert("t", "T{{ u }}".to_string());
    let state = Expansion::new("a{{ t }}b{% include \"f\" %}c".to_string());
    let state = match state.step(&ctx).unwrap() {
        Step::Expanded(next) => next,
        _ => panic!("a tag comes first"),
    };
    assert_eq!("a", state.html);
    assert_eq!("T{{ u }}b{% include \"f\" %}c", state.rest);
    assert!(matches!(state.step(&ctx), Err(Error::TagNotFound(name)) if name == "u"));

    let state = Expansion::new("x{% include \"f\" %}y".to_string());
    let (path, state) = match state.step(&ctx).unwrap() {
        Step::Include(path, next) => (path, next),
        _ => panic!("a command comes first"),
    };
    assert_eq!("f", path);
    assert_eq!("x", state.html);
    assert_eq!("y", state.rest);
    let state = state.resume("<f>");
    assert_eq!("<f>y", state.rest);
    match state.step(&ctx).unwrap() {
        Step::Done(html) => assert_eq!("x<f>y", html),
        _ => panic!("nothing is left to replace"),
    }
}

#[test]
fn test_context_rebinding() {
    let mut ctx = Context::new();
    assert!(ctx.get("k").is_none());
    ctx.insert("k", "1".to_string());
    ctx.insert("other", "o".to_string());
    ctx.insert("k", "2".to_string());
    assert_eq!(Some(&"2".to_string()), ctx.get("k"));
    assert!(ctx.contains_key("other"));
    assert!(!ctx.contains_key("K"));
    let copy = ctx.clone();
    ctx.insert("k", "3".to_string());
    assert_eq!(Some(&"2".to_string()), copy.get("k"));
    assert_eq!(Some(&"3".to_string()), ctx.get("k"));
}

#[test]
fn test_template_within_counts_replacements() {
    let mut ctx = Context::new();
    ctx.insert("a", "x{{ b }}".to_string());
    ctx.insert("b", "y".to_string());
    let files = TemplateCache::new();
    assert!(template_within(&ctx, &files, "{{ a }}".to_string(), 0).is_none());
    assert!(template_within(&ctx, &files, "{{ a }}".to_string(), 1).is_none());
    let html = template_within(&ctx, &files, "{{ a }}".to_string(), 2).unwrap().unwrap();
    assert_eq!("xy", html);
    let html = template_within(&ctx, &files, "plain".to_string(), 0).unwrap().unwrap();
    assert_eq!("plain", html);
    let r = template_within(&ctx, &files, "{{ c }}".to_string(), 0).unwrap();
    assert!(matches!(r, Err(Error::TagNotFound(name)) if name == "c"));
    let r = template_within(&ctx, &files, "{% include \"f\" %}".to_string(), 0).unwrap();
    assert!(matches!(r, Err(Error::IncludeShortcode(path, _)) if path == "f"));
}

#[test]
fn test_template_within_stops_on_a_cycle() {
    let mut ctx = Context::new();
    ctx.insert("a", "{{ b }}".to_string());
    ctx.insert("b", "{% include \"f\" %}".to_string());
    let mut files = TemplateCache::new();
    files.insert("f", "{{ a }}!".to_string());
    assert!(template_within(&ctx, &files, "{{ a }}".to_string(), 1000).is_none());
}

#[test]
fn test_flat_template_keeps_literal_text_around_values() {
    let mut ctx = Context::new();
    ctx.insert("x", "1".to_string());
    ctx.insert("y", "} 2 %}".to_string());
    ctx.insert("z", "".to_string());
    let html = template(
        &ctx,
        &TemplateCache::new(),
        "a{{ x }}b { c {{y}}{{ z }}d{{   x\t}}".to_string(),
    )
    .unwrap();
    assert_eq!("a1b { c } 2 %}d1", html);
}
