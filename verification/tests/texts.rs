use jcamp_rs::parser::push_atoms_from_line;
use jcamp_rs::text::{
    chars_of, is_whitespace, lower_char, scan, scan_back, string_of, trim_chars, upper_char,
    upper_string_of, CharClass,
};
use jcamp_rs::{normalize_key, parse_angle_brackets, parse_atom, parse_dims, split_key_value, PvAtom};

fn chars(s: &str) -> Vec<char> {
    s.chars().collect()
}

fn samples() -> Vec<&'static str> {
    vec![
        "",
        " ",
        "a",
        " a",
        "a ",
        "  a b  ",
        "\t\r\n",
        "\r\n",
        "abc\r\n",
        "a\u{a0}b",
        "\u{a0}\u{2003}x y\u{3000}\u{85}",
        "\u{200b}x\u{200b}",
        "\u{180e}x",
        "x\u{feff}",
        "1 2  3\t4\n5\u{2028}6",
        "   ##$A = ( 1, 2 )   ",
        "<text with  spaces>",
        "key=value",
        "=",
        "==",
        "a=",
        "=b",
        "a=b=c",
        " k e y = v a l ",
        "no equals",
        "ÄÖÜ=äöü",
    ]
}

#[test]
fn white_space_is_what_std_calls_white_space() {
    for code in 0u32..=0x10ffff {
        if let Some(c) = char::from_u32(code) {
            assert_eq!(is_whitespace(c), c.is_whitespace(), "U+{:04X}", code);
        }
    }
}

#[test]
fn ascii_case_is_mapped_as_std_maps_it() {
    for code in 0u32..=0x10ffff {
        if let Some(c) = char::from_u32(code) {
            assert_eq!(upper_char(c), c.to_ascii_uppercase(), "U+{:04X}", code);
            assert_eq!(lower_char(c), c.to_ascii_lowercase(), "U+{:04X}", code);
        }
    }
}

#[test]
fn strings_and_characters_convert_both_ways() {
    for s in samples() {
        assert_eq!(chars_of(s), chars(s));
        assert_eq!(string_of(&chars(s)), s);
        assert_eq!(upper_string_of(&chars(s)), s.to_ascii_uppercase());
    }
    assert_eq!(string_of(&['a', 'ß', '日']), "aß日");
    assert_eq!(chars_of("aß日"), vec!['a', 'ß', '日']);
}

#[test]
fn trimming_is_what_std_does() {
    for s in samples() {
        let cs = chars(s);
        assert_eq!(string_of(trim_chars(&cs)), s.trim(), "trim of {:?}", s);
    }
}

#[test]
fn scans_stop_at_the_first_character_outside_the_class() {
    assert_eq!(scan(&chars("  \tab "), CharClass::Space), 3);
    assert_eq!(scan(&chars("ab cd"), CharClass::Word), 2);
    assert_eq!(scan(&chars("123a4"), CharClass::Digit), 3);
    assert_eq!(scan(&chars("abc"), CharClass::Digit), 0);
    assert_eq!(scan(&chars("key=value=x"), CharClass::Except('=')), 3);
    assert_eq!(scan(&chars("none"), CharClass::Except('=')), 4);
    assert_eq!(scan(&chars(""), CharClass::Space), 0);
    assert_eq!(scan_back(&chars("ab  \r\n"), CharClass::Space), 4);
    assert_eq!(scan_back(&chars("ab12"), CharClass::Digit), 2);
    assert_eq!(scan_back(&chars("   "), CharClass::Space), 3);
    assert_eq!(scan_back(&chars("ab"), CharClass::Space), 0);
}

#[test]
fn tokens_are_what_std_splits_at_white_space() {
    for s in samples() {
        let mut atoms: Vec<PvAtom> = vec![PvAtom::Int(0)];
        push_atoms_from_line(&chars(s), &mut atoms);
        let mut expected: Vec<PvAtom> = vec![PvAtom::Int(0)];
        for tok in s.split_whitespace() {
            expected.push(parse_atom(tok));
        }
        assert_eq!(atoms, expected, "tokens of {:?}", s);
    }
}

#[test]
fn atoms_are_appended_to_what_is_there() {
    let mut atoms = vec![PvAtom::Bool(true)];
    push_atoms_from_line(&chars(" 1 x  2.5 "), &mut atoms);
    assert_eq!(
        atoms,
        vec![
            PvAtom::Bool(true),
            PvAtom::Int(1),
            PvAtom::Text("x".to_string()),
            PvAtom::Float("2.5".to_string())
        ]
    );
    push_atoms_from_line(&chars("   "), &mut atoms);
    assert_eq!(atoms.len(), 4);
}

#[test]
fn key_and_value_are_split_at_the_first_equals_sign() {
    for s in samples() {
        let expected = match s.split_once('=') {
            Some((k, v)) => (k, v),
            None => (s, ""),
        };
        assert_eq!(split_key_value(s), expected, "split of {:?}", s);
    }
    assert_eq!(split_key_value("TITLE=My Scan"), ("TITLE", "My Scan"));
    assert_eq!(split_key_value("ÄÖ=ü=x"), ("ÄÖ", "ü=x"));
}

#[test]
fn meta_keys_are_trimmed_and_upper_cased() {
    for s in samples() {
        assert_eq!(normalize_key(s), s.trim().to_ascii_uppercase(), "key of {:?}", s);
    }
    assert_eq!(normalize_key(" title "), "TITLE");
    assert_eq!(normalize_key("Größe"), "GRößE");
}

#[test]
fn angle_brackets_wrap_a_string() {
    assert_eq!(parse_angle_brackets("<abc>"), Some("abc".to_string()));
    assert_eq!(parse_angle_brackets("  <a b c>\r\n"), Some("a b c".to_string()));
    assert_eq!(parse_angle_brackets("<>"), Some(String::new()));
    assert_eq!(parse_angle_brackets("< >"), Some(" ".to_string()));
    assert_eq!(parse_angle_brackets("<a> <b>"), Some("a> <b".to_string()));
    assert_eq!(parse_angle_brackets("<日本>"), Some("日本".to_string()));
    assert_eq!(parse_angle_brackets("<"), None);
    assert_eq!(parse_angle_brackets(">"), None);
    assert_eq!(parse_angle_brackets("<abc"), None);
    assert_eq!(parse_angle_brackets("abc>"), None);
    assert_eq!(parse_angle_brackets("x<abc>"), None);
    assert_eq!(parse_angle_brackets("<abc>x"), None);
    assert_eq!(parse_angle_brackets(""), None);
    assert_eq!(parse_angle_brackets("1 2 3"), None);
}

/// The shape that a value declares, found with std's string methods.
fn dims_by_std(v: &str) -> Option<Vec<usize>> {
    let v = v.trim();
    if !v.starts_with('(') || !v.ends_with(')') {
        return None;
    }
    let inner = &v[1..v.len() - 1];
    let mut dims = Vec::new();
    for t in inner.split(',') {
        let t = t.trim();
        if t.is_empty() {
            continue;
        }
        match t.parse::<usize>() {
            Ok(d) => dims.push(d),
            Err(_) => return None,
        }
    }
    if dims.is_empty() {
        None
    } else {
        Some(dims)
    }
}

#[test]
fn shapes_are_read_from_parenthesised_lists() {
    assert_eq!(parse_dims("( 10, 2 )"), Some(vec![10, 2]));
    assert_eq!(parse_dims("( 4 )"), Some(vec![4]));
    assert_eq!(parse_dims("(4)"), Some(vec![4]));
    assert_eq!(parse_dims("  (  1 ,2,   3 )  "), Some(vec![1, 2, 3]));
    assert_eq!(parse_dims("( 0 )"), Some(vec![0]));
    assert_eq!(parse_dims("( +3 )"), Some(vec![3]));
    assert_eq!(parse_dims("( 1,, 2, )"), Some(vec![1, 2]));
    assert_eq!(parse_dims("(,5)"), Some(vec![5]));
    assert_eq!(parse_dims("()"), None);
    assert_eq!(parse_dims("( )"), None);
    assert_eq!(parse_dims("(,)"), None);
    assert_eq!(parse_dims("("), None);
    assert_eq!(parse_dims(")"), None);
    assert_eq!(parse_dims(")("), None);
    assert_eq!(parse_dims("( 1"), None);
    assert_eq!(parse_dims("1 )"), None);
    assert_eq!(parse_dims("( 1 2 )"), None);
    assert_eq!(parse_dims("( -1 )"), None);
    assert_eq!(parse_dims("( 1.5 )"), None);
    assert_eq!(parse_dims("( a )"), None);
    assert_eq!(parse_dims("((1))"), None);
    assert_eq!(parse_dims("( 1 ) 2"), None);
    assert_eq!(parse_dims("16"), None);
    assert_eq!(parse_dims(""), None);
    assert_eq!(parse_dims("( 18446744073709551615 )"), Some(vec![usize::MAX]));
    assert_eq!(parse_dims("( 18446744073709551616 )"), None);
}

#[test]
fn shapes_are_read_as_std_reads_them() {
    let cases = [
        "( 10, 2 )", "(1,2,3)", "( 1,, 2 )", "(,)", "()", "(", ")", "( 1 2 )", "( x )", "(1)(2)",
        "( 1 ), ( 2 )", " ( 7 ) ", "(\t7\t,\t8\t)", "( 7 ,\u{a0}8 )", "( 00012 )", "( + )",
        "( +1, +2 )", "( 1e3 )", "( 99999999999999999999 )", "( 3 )x", "x( 3 )", "(( 3 ))",
        "( 3 ,)", "(3,,,,4)", "( , , )", "(0,0)", "( ١ )",
    ];
    for v in cases.iter() {
        assert_eq!(parse_dims(v), dims_by_std(v), "shape of {:?}", v);
    }
}
