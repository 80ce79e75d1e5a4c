use dirstate::filepatterns::build_single_regex;
use dirstate::filepatterns::escape_pattern;
use dirstate::filepatterns::filter_subincludes;
use dirstate::filepatterns::glob_to_re;
use dirstate::filepatterns::HgPathError;
use dirstate::filepatterns::normalize_path_bytes;
use dirstate::filepatterns::parse_one_pattern;
use dirstate::filepatterns::parse_pattern_file_contents;
use dirstate::filepatterns::parse_pattern_syntax;
use dirstate::filepatterns::IgnorePattern;
use dirstate::filepatterns::PatternError;
use dirstate::filepatterns::PatternFileWarning;
use dirstate::filepatterns::PatternSyntax;
use dirstate::filepatterns::SubInclude;

#[test]
fn escape_pattern_test() {
    let untouched =
        br#"!"%',/0123456789:;<=>@ABCDEFGHIJKLMNOPQRSTUVWXYZ_`abcdefghijklmnopqrstuvwxyz"#;
    assert_eq!(escape_pattern(untouched), untouched.to_vec());
    // All escape codes
    assert_eq!(
        escape_pattern(br"()[]{}?*+-|^$\\.&~#\t\n\r\v\f"),
        br"\(\)\[\]\{\}\?\*\+\-\|\^\$\\\\\.\&\~\#\\t\\n\\r\\v\\f".to_vec()
    );
}

#[test]
fn glob_test() {
    assert_eq!(glob_to_re(br"?"), br".");
    assert_eq!(glob_to_re(br"*"), br"[^/]*");
    assert_eq!(glob_to_re(br"**"), br".*");
    assert_eq!(glob_to_re(br"**/a"), br"(?:.*/)?a");
    assert_eq!(glob_to_re(br"a/**/b"), br"a/(?:.*/)?b");
    assert_eq!(glob_to_re(br"[a*?!^][^b][!c]"), br"[a*?!^][\^b][^c]");
    assert_eq!(glob_to_re(br"{a,b}"), br"(?:a|b)");
    assert_eq!(glob_to_re(br".\*\?"), br"\.\*\?");
}

#[test]
fn test_parse_pattern_file_contents() {
    let lines = b"syntax: glob\n*.elc";

    assert_eq!(
        parse_pattern_file_contents(lines, b"file_path", None, false, true)
            .unwrap()
            .0,
        vec![IgnorePattern::new(
            PatternSyntax::RelGlob,
            b"*.elc",
            b"file_path"
        )],
    );

    let lines = b"syntax: include\nsyntax: glob";

    assert_eq!(
        parse_pattern_file_contents(lines, b"file_path", None, false, true)
            .unwrap()
            .0,
        vec![]
    );
    let lines = b"glob:**.o";
    assert_eq!(
        parse_pattern_file_contents(lines, b"file_path", None, false, true)
            .unwrap()
            .0,
        vec![IgnorePattern::new(
            PatternSyntax::RelGlob,
            b"**.o",
            b"file_path"
        )]
    );
}

#[test]
fn test_build_single_regex() {
    assert_eq!(
        build_single_regex(
            &IgnorePattern::new(PatternSyntax::RelGlob, b"rust/target/", b""),
            b"(?:/|$)"
        )
        .unwrap(),
        Some(br"(?:.*/)?rust/target(?:/|$)".to_vec()),
    );
    assert_eq!(
        build_single_regex(
            &IgnorePattern::new(PatternSyntax::Regexp, br"rust/target/\d+", b""),
            b"(?:/|$)"
        )
        .unwrap(),
        Some(br"rust/target/\d+".to_vec()),
    );
}

#[test]
fn test_build_single_regex_shortcut() {
    assert_eq!(
        build_single_regex(
            &IgnorePattern::new(PatternSyntax::RootGlob, b"", b""),
            b"(?:/|$)"
        )
        .unwrap(),
        None,
    );
    assert_eq!(
        build_single_regex(
            &IgnorePattern::new(PatternSyntax::RootGlob, b"whatever", b""),
            b"(?:/|$)"
        )
        .unwrap(),
        None,
    );
    assert_eq!(
        build_single_regex(
            &IgnorePattern::new(PatternSyntax::RootGlob, b"*.o", b""),
            b"(?:/|$)"
        )
        .unwrap(),
        Some(br"[^/]*\.o(?:/|$)".to_vec()),
    );
}

#[test]
fn test_build_single_relregex() {
    assert_eq!(
        build_single_regex(
            &IgnorePattern::new(PatternSyntax::RelRegexp, b"^ba{2}r", b""),
            b"(?:/|$)"
        )
        .unwrap(),
        Some(b"^ba{2}r".to_vec()),
    );
    assert_eq!(
        build_single_regex(
            &IgnorePattern::new(PatternSyntax::RelRegexp, b"ba{2}r", b""),
            b"(?:/|$)"
        )
        .unwrap(),
        Some(b".*ba{2}r".to_vec()),
    );
    assert_eq!(
        build_single_regex(
            &IgnorePattern::new(PatternSyntax::RelRegexp, b"(?ia)ba{2}r", b""),
            b"(?:/|$)"
        )
        .unwrap(),
        Some(b"(?ia:.*ba{2}r)".to_vec()),
    );
    assert_eq!(
        build_single_regex(
            &IgnorePattern::new(PatternSyntax::RelRegexp, b"(?ia)^ba{2}r", b""),
            b"(?:/|$)"
        )
        .unwrap(),
        Some(b"(?ia:^ba{2}r)".to_vec()),
    );
}

#[test]
fn normalize_collapses_and_resolves() {
    assert_eq!(normalize_path_bytes(b""), b".".to_vec());
    assert_eq!(normalize_path_bytes(b"a//b/./c"), b"a/b/c".to_vec());
    assert_eq!(normalize_path_bytes(b"a/b/../c"), b"a/c".to_vec());
    assert_eq!(normalize_path_bytes(b"../a"), b"../a".to_vec());
    assert_eq!(normalize_path_bytes(b"/../a"), b"/a".to_vec());
    assert_eq!(normalize_path_bytes(b"///a/b"), b"/a/b".to_vec());
    assert_eq!(normalize_path_bytes(b"//a/b"), b"//a/b".to_vec());
    assert_eq!(normalize_path_bytes(b"a/.."), b".".to_vec());
    assert_eq!(normalize_path_bytes(b"/"), b"/".to_vec());
    assert_eq!(normalize_path_bytes(b"."), b".".to_vec());
}

#[test]
fn normalize_is_idempotent_on_samples() {
    let samples: Vec<&[u8]> = vec![
        b"", b".", b"/", b"//x", b"///x//y/./z/../w", b"a/b/c", b"../../a", b"a//..//b",
        b"rust/target/",
    ];
    for s in samples {
        let once = normalize_path_bytes(s);
        let twice = normalize_path_bytes(&once);
        assert_eq!(once, twice);
    }
}

#[test]
fn parse_pattern_syntax_known_and_unknown() {
    assert_eq!(parse_pattern_syntax(b"re:").unwrap(), PatternSyntax::Regexp);
    assert_eq!(parse_pattern_syntax(b"glob:").unwrap(), PatternSyntax::Glob);
    assert_eq!(
        parse_pattern_syntax(b"rootfilesin:").unwrap(),
        PatternSyntax::RootFiles
    );
    match parse_pattern_syntax(b"foo:") {
        Err(PatternError::UnsupportedSyntax(s)) => assert_eq!(s, "foo:"),
        _ => panic!("expected an unsupported-syntax error"),
    }
    // the alias accepted in files is not accepted as an explicit marker
    assert!(parse_pattern_syntax(b"regexp:").is_err());
}

#[test]
fn parse_one_pattern_prefixes_and_default() {
    let p = parse_one_pattern(b"glob:*.o", b"src", PatternSyntax::RelRegexp, false);
    assert_eq!(p.syntax, PatternSyntax::Glob);
    assert_eq!(p.pattern, b"*.o".to_vec());
    assert_eq!(p.source, b"src".to_vec());

    let p = parse_one_pattern(b"ba{2}r", b"src", PatternSyntax::RelRegexp, false);
    assert_eq!(p.syntax, PatternSyntax::RelRegexp);
    assert_eq!(p.pattern, b"ba{2}r".to_vec());

    // normalization applies to the path-like syntaxes when asked
    let p = parse_one_pattern(b"path:a//b/", b"src", PatternSyntax::RelRegexp, true);
    assert_eq!(p.syntax, PatternSyntax::Path);
    assert_eq!(p.pattern, b"a/b".to_vec());
}

#[test]
fn comments_and_escaped_hashes() {
    let lines = b"foo#comment\nba\\#r\n#whole line comment\n  \n";
    let (patterns, warnings) =
        parse_pattern_file_contents(lines, b"f", None, true, false).unwrap();
    assert!(warnings.is_empty());
    assert_eq!(patterns.len(), 2);
    assert_eq!(patterns[0].pattern, b"foo".to_vec());
    assert_eq!(patterns[1].pattern, b"ba#r".to_vec());
}

#[test]
fn unknown_syntax_line_warns_and_keeps_default() {
    let lines = b"syntax: nosuch\n*.o";
    let (patterns, warnings) =
        parse_pattern_file_contents(lines, b"f", None, true, false).unwrap();
    assert_eq!(
        warnings,
        vec![PatternFileWarning::InvalidSyntax(
            b"f".to_vec(),
            b"nosuch".to_vec()
        )]
    );
    // the previous default (relative regexp) is retained
    assert_eq!(patterns.len(), 1);
    assert_eq!(patterns[0].syntax, PatternSyntax::RelRegexp);
}

#[test]
fn build_single_regex_rejects_includes() {
    match build_single_regex(
        &IgnorePattern::new(PatternSyntax::Include, b"other", b"f"),
        b"(?:/|$)",
    ) {
        Err(PatternError::NonRegexPattern(p)) => {
            assert_eq!(p.syntax, PatternSyntax::Include);
            assert_eq!(p.pattern, b"other".to_vec());
        }
        _ => panic!("expected a non-regex-pattern error"),
    }
}

#[test]
fn build_single_regex_path_syntaxes() {
    assert_eq!(
        build_single_regex(
            &IgnorePattern::new(PatternSyntax::RelPath, b"dir/sub", b""),
            b"(?:/|$)"
        )
        .unwrap(),
        Some(b"dir/sub(?:/|$)".to_vec()),
    );
    assert_eq!(
        build_single_regex(
            &IgnorePattern::new(PatternSyntax::RootFiles, b"dir", b""),
            b"(?:/|$)"
        )
        .unwrap(),
        Some(b"dir/[^/]+$".to_vec()),
    );
    assert_eq!(
        build_single_regex(
            &IgnorePattern::new(PatternSyntax::RootFiles, b".", b""),
            b"(?:/|$)"
        )
        .unwrap(),
        Some(b"[^/]+$".to_vec()),
    );
}

#[test]
fn to_relative_reanchors() {
    let p = IgnorePattern::new(PatternSyntax::Regexp, b"x", b"s").to_relative();
    assert_eq!(p.syntax, PatternSyntax::RelRegexp);
    let p = IgnorePattern::new(PatternSyntax::Glob, b"x", b"s").to_relative();
    assert_eq!(p.syntax, PatternSyntax::RelGlob);
    let p = IgnorePattern::new(PatternSyntax::Path, b"x", b"s").to_relative();
    assert_eq!(p.syntax, PatternSyntax::Path);
}

#[test]
fn subinclude_prefix_is_relative_with_trailing_slash() {
    let sub = SubInclude::new(b".", b"subdir/inner", b".hgignore").unwrap();
    assert_eq!(sub.prefix, b"subdir/".to_vec());
    assert_eq!(sub.path, b"subdir/inner".to_vec());
    assert_eq!(sub.root, b"subdir".to_vec());
    assert!(sub.included_patterns.is_empty());

    let sub = SubInclude::new(b"repo", b"nested/file", b"repo/.hgignore").unwrap();
    assert_eq!(sub.prefix, b"nested/".to_vec());
    assert_eq!(sub.root, b"repo/nested".to_vec());
}

#[test]
fn filter_subincludes_splits_in_order() {
    let plain = IgnorePattern::new(PatternSyntax::RelGlob, b"*.o", b"f");
    let sub = SubInclude {
        prefix: b"sub/".to_vec(),
        path: b"sub/.hgignore".to_vec(),
        root: b"sub".to_vec(),
        included_patterns: Vec::new(),
    };
    let expanded = IgnorePattern {
        syntax: PatternSyntax::ExpandedSubInclude(Box::new(sub)),
        pattern: b"sub/.hgignore".to_vec(),
        source: b"f".to_vec(),
    };
    let plain2 = IgnorePattern::new(PatternSyntax::RelRegexp, b"x", b"f");
    let (subs, others) = filter_subincludes(vec![plain, expanded, plain2]).unwrap();
    assert_eq!(subs.len(), 1);
    assert_eq!(subs[0].prefix, b"sub/".to_vec());
    assert_eq!(others.len(), 2);
    assert_eq!(others[0].pattern, b"*.o".to_vec());
    assert_eq!(others[1].pattern, b"x".to_vec());
}

#[test]
fn subinclude_outside_root_is_an_error() {
    match SubInclude::new(b"other", b"sub/x", b".hgignore") {
        Err(HgPathError::NotUnderRoot { path, root }) => {
            assert_eq!(path, b"sub".to_vec());
            assert_eq!(root, b"other".to_vec());
        }
        _ => panic!("expected a not-under-root error"),
    }
}
