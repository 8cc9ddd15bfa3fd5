//! Texts, paths, tables and templates.

use over::actions::install::package::put_packages;
use over::blocks::{find_blocks, Block, Token};
use over::glob::Special;
use over::path::{
    component_texts, file_name, join_path, less_path, parent, same_path, starts_with_path,
    strip_base,
};
use over::table::{place_of, put_entry, sort_by_key};
use over::template::{render_symlink_target, rendered_target};
use over::text::{
    decimal_text, is_blank, join_texts, less, padded_number, replace_char, split_at_char,
    split_lines, split_words, strip_prefix, strip_suffix, trim_char, trim_endings,
};

fn s(t: &str) -> String {
    t.to_string()
}

fn list(l: &[&str]) -> Vec<String> {
    l.iter().map(|t| s(t)).collect()
}

fn pairs(p: &[(&str, &str)]) -> Vec<(String, String)> {
    p.iter().map(|(k, v)| (s(k), s(v))).collect()
}

#[test]
fn render_symlink_target_with_env() {
    let env = pairs(&[("OVER_TEST_HOME", "/test/home")]);
    assert_eq!(
        render_symlink_target("{{ env.OVER_TEST_HOME }}/config", &env, &vec![]).unwrap(),
        "/test/home/config"
    );
}

#[test]
fn render_symlink_target_with_overlays() {
    let overlays = pairs(&[("apps/nvim", "/opt/nvim")]);
    assert_eq!(
        render_symlink_target("{{ overlays['apps/nvim'] }}/init.lua", &vec![], &overlays).unwrap(),
        "/opt/nvim/init.lua"
    );
}

#[test]
fn render_symlink_target_invalid_template() {
    assert_eq!(
        render_symlink_target("{{ invalid.template", &vec![], &vec![]).unwrap_err(),
        "failed to render symlink target template '{{ invalid.template'"
    );
    assert_eq!(
        rendered_target("t", None).unwrap_err(),
        "failed to render symlink target template 't'"
    );
    assert_eq!(rendered_target("t", Some(s("x"))).unwrap(), "x");
}

#[test]
fn render_symlink_target_plain() {
    assert_eq!(render_symlink_target("/plain/path", &vec![], &vec![]).unwrap(), "/plain/path");
}

#[test]
fn render_symlink_target_combined_env_and_overlay() {
    let env = pairs(&[("OVER_TEST_USER", "testuser")]);
    let overlays = pairs(&[("apps/tool", "/opt/tool")]);
    assert_eq!(
        render_symlink_target(
            "{{ env.OVER_TEST_USER }}/{{ overlays['apps/tool'] }}",
            &env,
            &overlays
        )
        .unwrap(),
        "testuser//opt/tool"
    );
}

#[test]
fn templates_that_are_not_simple_are_refused() {
    let env = pairs(&[("A", "abcd"), ("recycle", "bin")]);
    let refused = [
        s("{{ range(9223372036854775807, -2, -1) }}"),
        s("{{ range(1000) }}"),
        s("{{ range }}"),
        s("{{ env.A[::-1] }}"),
        s("{% for x in [1] %}{{ loop.cycle() }}{% endfor %}"),
        s("{{ 'a' | indent(3000) }}"),
        s("{{ 'a' | indent }}"),
        s("{{ 4 is divisibleby(0) }}"),
        s("{{ 4 is not divisibleby 0 }}"),
        s("{{ [1] | chain([2]) }}"),
        s("{{ [1] | map('upper') }}"),
        s("{{ [{'k': 1}] | sort(attribute='k') }}"),
        s("{{ 'ab' * 9 }}"),
        s("{% macro m() %}{{ m() }}{% endmacro %}{{ m() }}"),
        s("{% set x = [1] %}{% set x = [x] %}{{ x }}"),
        s("{% raw %}x{% endraw %}"),
        format!("{{{{ {}1 }}}}", "not ".repeat(64)),
        format!("{{{{ {}1{} }}}}", "(".repeat(9), ")".repeat(9)),
        format!("{}{{{{ 1 }}}}", "{% if 1 %}{% endif %}".repeat(8)),
        "a".repeat(4097),
    ];
    for template in refused {
        assert_eq!(
            render_symlink_target(&template, &env, &vec![]).unwrap_err(),
            format!("failed to render symlink target template '{template}'")
        );
    }
    let long = "a".repeat(4096);
    let rendered = [
        ("{{ env.A[0:2] }}/x", "ab/x"),
        ("{{ env.A[1] }}:x:y", "b:x:y"),
        ("{{env['A']}}:x:{{env['recycle']}}", "abcd:x:bin"),
        ("{{ env.recycle }}/cycle", "bin/cycle"),
        ("{% if env.A %}motorcycle{% endif %}", "motorcycle"),
        ("{# {{ range }} #}/a[::]b", "/a[::]b"),
        ("/orange/range(3)", "/orange/range(3)"),
        ("{% for x in [1, 2] %}{{ x }}{% endfor %}", "12"),
        ("{%- for x in range(3) -%} {{ x }} {%- endfor -%}", "012"),
        ("{{ env.A | upper }}", "ABCD"),
        ("{{ ('x' ~ env.A | replace('b', '(')) | length }}", "5"),
        ("{{ '{{ range }}' | length }}", "11"),
        ("{{ 'a/b/c' | split('/') | last }}", "c"),
        ("{{ 4 is divisibleby(2) and 4 is not divisibleby(3) }}", "True"),
        ("{{ [2, 1] | sort | join }}{{ [1, 2] | sort(reverse=true) | join }}", "1221"),
        ("{{ [1, 2, 3] | batch(2) | first | join('-') }}", "1-2"),
        ("{% set x = {'map': 7} %}{{ x.map }}", "7"),
        (long.as_str(), long.as_str()),
    ];
    for (template, target) in rendered {
        assert_eq!(render_symlink_target(template, &env, &vec![]).unwrap(), target);
    }
}

#[test]
fn the_largest_simple_templates_are_rendered() {
    let nested = format!("{}1{}", "x | default([".repeat(4), "])".repeat(4));
    let rendered = [
        (format!("{{{{ {}1 }}}}", "not ".repeat(63)), s("False")),
        (format!("{{{{ {}1 }}}}", "-".repeat(62)), s("1")),
        (format!("{{{{ {}1 }}}}", "1 + ".repeat(31)), s("32")),
        (format!("{{{{ 'a'{} }}}}", " | upper".repeat(31)), s("A")),
        (format!("{{{{ {}1{} }}}}", "(".repeat(8), ")".repeat(8)), s("1")),
        (format!("{{{{ {nested} }}}}"), s("[[[[1]]]]")),
        (format!("{}x{}", "{% if 1 %}".repeat(8), "{% endif %}".repeat(8)), s("x")),
        (format!("{{% if 0 %}}{}y{{% endif %}}", "{% elif 1 %}x".repeat(14)), s("x")),
    ];
    for (template, target) in rendered {
        assert_eq!(render_symlink_target(&template, &vec![], &vec![]).unwrap(), target);
    }
}

#[test]
fn blocks_are_found_in_templates() {
    let found = find_blocks("a{{ env['}}'][1] }}{# {% x %} #}{%- if x %}b{{ {'k': 1} }}");
    let word = |w: &str| Token::Word(s(w));
    assert_eq!(
        found,
        vec![
            Block {
                statement: false,
                tokens: vec![
                    word("env"),
                    Token::Mark('['),
                    Token::Quoted,
                    Token::Mark(']'),
                    Token::Mark('['),
                    word("1"),
                    Token::Mark(']'),
                ],
            },
            Block { statement: true, tokens: vec![Token::Mark('-'), word("if"), word("x")] },
            Block {
                statement: false,
                tokens: vec![
                    Token::Mark('{'),
                    Token::Quoted,
                    Token::Mark(':'),
                    word("1"),
                    Token::Mark('}'),
                ],
            },
        ]
    );
    assert_eq!(find_blocks("{ { x } } %}"), vec![]);
    assert_eq!(
        find_blocks("{{ 'a\\'}}'}}b"),
        vec![Block { statement: false, tokens: vec![Token::Quoted] }]
    );
}

#[test]
fn sidecars_are_selected_by_pattern() {
    let paths = list(&["a.link.toml", "over.toml", "b/c.link.yaml", "d.partial.yml", "link.toml"]);
    assert_eq!(Special::Link.select(&paths).unwrap(), list(&["a.link.toml", "b/c.link.yaml"]));
    assert_eq!(Special::Partial.select(&paths).unwrap(), list(&["d.partial.yml"]));
    assert_eq!(Special::Descriptor.select(&paths).unwrap(), list(&["over.toml"]));
}

#[test]
fn paths_have_components() {
    assert_eq!(component_texts("/a//b/./c/"), list(&["/", "a", "b", "c"]));
    assert_eq!(component_texts("./a/.."), list(&[".", "a", ".."]));
    assert_eq!(component_texts(""), list(&[]));
    assert!(same_path("/a/b/", "/a//./b"));
    assert!(!same_path("a", "./a"));
    assert!(starts_with_path("/a/bc", "/a"));
    assert!(!starts_with_path("/a/bc", "/a/b"));
    assert_eq!(file_name("/a/b/"), Some(s("b")));
    assert_eq!(file_name("/a/.."), None);
    assert_eq!(parent("/a/b/"), Some(s("/a")));
    assert_eq!(parent("a"), Some(s("")));
    assert_eq!(parent("/"), None);
}

#[test]
fn joining_undoes_stripping() {
    let rel = strip_base("/home/user/.config//nvim/", "/home/user").unwrap();
    assert_eq!(rel, ".config//nvim");
    let moved = join_path("/over/ov", &rel);
    assert_eq!(moved, "/over/ov/.config//nvim");
    let back = join_path("/home/user", &strip_base(&moved, "/over/ov").unwrap());
    assert!(same_path(&back, "/home/user/.config//nvim/"));
    assert_eq!(join_path("/a", "/b"), "/b");
    assert_eq!(join_path("/a/", "b"), "/a/b");
    assert_eq!(join_path("", "b"), "b");
    assert_eq!(strip_base("/a/b", "/c"), None);
}

#[test]
fn paths_are_ordered_by_component() {
    assert!(less_path("/a", "/a/b"));
    assert!(less_path("/a/b", "/a-b"));
    assert!(!less_path("/a-b", "/a/b"));
    assert!(!less_path("/a/", "/a"));
    assert!(less_path("..", "a"));
}

#[test]
fn texts_are_cut_and_joined() {
    assert_eq!(split_at_char("a/b//c", '/'), list(&["a", "b", "", "c"]));
    assert_eq!(split_lines("a\r\nb\n\nc"), list(&["a", "b", "", "c"]));
    assert_eq!(split_lines(""), list(&[]));
    assert_eq!(split_words(" a\tb \u{a0}c "), list(&["a", "b", "c"]));
    assert_eq!(join_texts(&list(&["a", "b"]), ", "), "a, b");
    assert_eq!(strip_prefix("refs/x", "refs/"), Some(s("x")));
    assert_eq!(strip_suffix("a.toml", ".yaml"), None);
    assert_eq!(trim_char("\"\"a\"b\"", '"'), "a\"b");
    assert_eq!(trim_endings("x.git.git", ".git"), "x");
    assert_eq!(replace_char("a\\b\\c", '\\', '/'), "a/b/c");
    assert_eq!(decimal_text(0), "0");
    assert_eq!(decimal_text(u64::MAX), "18446744073709551615");
    assert_eq!(padded_number(7, 3), "  7");
    assert_eq!(padded_number(1234, 3), "1234");
    assert!(is_blank(" \n\u{2003}") && !is_blank("x"));
    assert!(less("a", "ab") && less("Z", "a") && !less("a", "a"));
}

#[test]
fn tables_hold_one_value_for_each_key() {
    let mut m = pairs(&[("b", "1"), ("a", "2")]);
    put_entry(&mut m, s("b"), s("3"));
    put_entry(&mut m, s("c"), s("4"));
    assert_eq!(m, pairs(&[("b", "3"), ("a", "2"), ("c", "4")]));
    assert_eq!(place_of(&m, "a"), 1);
    assert_eq!(place_of(&m, "z"), 3);
    let twice = pairs(&[("b", "1"), ("a", "2"), ("b", "0"), ("a", "1")]);
    assert_eq!(sort_by_key(twice), pairs(&[("a", "2"), ("a", "1"), ("b", "1"), ("b", "0")]));
}

#[test]
fn packages_form_a_set() {
    let mut set: Vec<String> = vec![];
    put_packages(&mut set, &list(&["git", "curl", "git"]));
    put_packages(&mut set, &list(&["ack", "curl"]));
    assert_eq!(set, list(&["ack", "curl", "git"]));
}
