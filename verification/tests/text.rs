//! Text helpers, held against what the standard library does.

use mizu_render::order::{comes_before, sort_names};
use mizu_render::svg::parse_svg_path;
use mizu_render::text::{
    byte_length, char_position, chars_of, collapse_white_space, contains_text, control, decimal_of,
    drop_controls, has_prefix, join2, join3, join_strings, offset_at, pad_left,
    pad_right, parse_usize, push_hex, same_text, signed_decimal_of, string_of, strip_leading, trim,
    white_space, width_of,
};

const SAMPLES: &[&str] = &[
    "",
    "a",
    "héllo→",
    "  spaced \t out  ",
    "日本語\u{3000}テキスト",
    "🦀 crab\n",
    "\u{a0}\u{85}",
];

#[test]
fn white_space_and_controls_are_those_of_unicode() {
    for c in '\0'..=char::MAX {
        assert_eq!(white_space(c), c.is_whitespace(), "{c:?}");
        assert_eq!(control(c), c.is_control(), "{c:?}");
        assert_eq!(width_of(c), c.len_utf8(), "{c:?}");
    }
}

#[test]
fn characters_and_bytes_agree() {
    for s in SAMPLES {
        let chars: Vec<char> = s.chars().collect();
        assert_eq!(chars_of(s), chars);
        assert_eq!(byte_length(s), s.len());
        for (k, (b, _)) in s.char_indices().enumerate() {
            assert_eq!(offset_at(s, k), b);
            assert_eq!(char_position(s, b), k);
        }
        assert_eq!(offset_at(s, chars.len()), s.len());
        assert_eq!(char_position(s, s.len() + 9), chars.len());
        for from in 0..=chars.len() {
            for to in from..=chars.len() {
                let want: String = chars[from..to].iter().collect();
                assert_eq!(string_of(&chars, from, to), want);
            }
        }
    }
}

#[test]
fn parts_of_texts_are_found() {
    for a in SAMPLES {
        assert_eq!(trim(a), a.trim());
        assert_eq!(
            drop_controls(a),
            a.chars().filter(|c| !c.is_control()).collect::<String>()
        );
        let words: Vec<&str> = a.split_whitespace().collect();
        assert_eq!(collapse_white_space(a), words.join(" "));
        for b in SAMPLES {
            assert_eq!(same_text(a, b), a == b);
            assert_eq!(has_prefix(a, b), a.starts_with(b));
            assert_eq!(contains_text(a, b), a.contains(b));
            assert_eq!(join2(a, b), format!("{a}{b}"));
            assert_eq!(join3(a, b, "!"), format!("{a}{b}!"));
            let parts = vec![a.to_string(), b.to_string(), "z".to_string()];
            assert_eq!(join_strings(&parts, ", "), parts.join(", "));
        }
    }
    assert!(contains_text("mizu://host", "://"));
    assert!(!contains_text("mizu:/host", "://"));
    assert_eq!(strip_leading("..card.x", '.'), "card.x");
    assert_eq!(strip_leading("...", '.'), "");
}

#[test]
fn numbers_are_printed_and_read() {
    for n in [0u64, 7, 10, 99, 100, 12_345, u64::MAX] {
        assert_eq!(decimal_of(n), n.to_string());
        assert_eq!(parse_usize(&n.to_string()), n.to_string().parse::<usize>().ok());
    }
    for n in [0, 5, -5, i32::MIN, i32::MAX] {
        assert_eq!(signed_decimal_of(n), n.to_string());
    }
    let odd = ["", "+", "-1", "+4", "007", "1a", " 1", "18446744073709551616", "99999999999999999999999"];
    for s in odd {
        assert_eq!(parse_usize(s), s.parse::<usize>().ok(), "{s:?}");
    }
    for b in 0..=255u8 {
        let mut s = String::from("#");
        push_hex(&mut s, b);
        assert_eq!(s, format!("#{b:02x}"));
    }
    for s in SAMPLES {
        for n in 0..9 {
            assert_eq!(pad_right(s, n), format!("{s:<n$}"));
            assert_eq!(pad_left(s, n), format!("{s:>n$}"));
        }
    }
}

#[test]
fn names_are_ordered_as_strings_are() {
    let names: Vec<String> = ["b", "a", "", "é", "ab", "a", "Z", "日"]
        .iter()
        .map(|s| s.to_string())
        .collect();
    for a in &names {
        for b in &names {
            assert_eq!(comes_before(a, b), a < b, "{a:?} {b:?}");
        }
    }
    let order = sort_names(&names);
    let sorted: Vec<&String> = order.iter().map(|i| &names[*i]).collect();
    let mut want: Vec<&String> = names.iter().collect();
    want.sort();
    assert_eq!(sorted, want);
    let mut seen = order.clone();
    seen.sort();
    assert_eq!(seen, (0..names.len()).collect::<Vec<usize>>());
    // Equal names keep their order.
    assert_eq!(order[2..4], [1, 5]);
}

#[test]
fn an_icons_outline_is_its_first_d_attribute() {
    let svg = "<svg fill=\"x\"><path d=\"M0,0 L1,1Z\"/><path d=\"M9\"/></svg>";
    assert_eq!(parse_svg_path(svg).as_deref(), Some("M0,0 L1,1Z"));
    assert_eq!(parse_svg_path("<path d=\"\"/>").as_deref(), Some(""));
    assert_eq!(parse_svg_path("<svg/>"), None);
    assert_eq!(parse_svg_path("<path d=\"M0"), None);
    // Like the first match of a search, this one does not look at what the
    // attribute's name starts with.
    assert_eq!(parse_svg_path("<a id=\"q\" d=\"M1\">").as_deref(), Some("q"));
}
