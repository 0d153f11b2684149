use tuff_brg::text::{contains_str, is_white_space_char};

const SAMPLES: &[&str] = &[
    "", " ", "a", " a ", "\t\n a b \r\n", "\u{3000}全角\u{3000}", "\u{85}x\u{a0}", "\u{200b}x\u{200b}",
    "\u{2028}y\u{2029}", "\u{1680}\u{180e}", "line1\nline2\r\nline3\r", "\n", "a\n\n", "\r\n\r\n",
];

#[test]
fn white_space_matches_std() {
    for c in ['\t', '\n', '\u{b}', '\u{c}', '\r', ' ', '\u{85}', '\u{a0}', '\u{1680}', '\u{2000}',
        '\u{200a}', '\u{2028}', '\u{2029}', '\u{202f}', '\u{205f}', '\u{3000}', 'a', '\u{200b}',
        '\u{180e}', '\u{feff}', '0', '\u{1f}']
    {
        assert_eq!(is_white_space_char(c), c.is_whitespace(), "char {:?}", c);
    }
    for u in 0u32..0x3100 {
        if let Some(c) = char::from_u32(u) {
            assert_eq!(is_white_space_char(c), c.is_whitespace(), "code point {:x}", u);
        }
    }
}

#[test]
fn contains_matches_std() {
    for hay in SAMPLES {
        for needle in ["", " ", "a", "\n", "\r\n", "全角", "line2", "xx", "a b"] {
            assert_eq!(contains_str(hay, needle), hay.contains(needle), "{:?} in {:?}", needle, hay);
        }
    }
}

fn range_text(v: &[char], r: (usize, usize)) -> String {
    v[r.0..r.1].iter().collect()
}

#[test]
fn trim_matches_std() {
    for s in SAMPLES {
        let v: Vec<char> = s.chars().collect();
        let r = tuff_brg::text::trim_range(&v, 0, v.len());
        assert_eq!(range_text(&v, r), s.trim(), "trim of {:?}", s);
        assert_eq!(tuff_brg::text::trimmed_string(&v, 0, v.len()), s.trim());
    }
}

#[test]
fn lines_match_std() {
    for s in SAMPLES.iter().chain(["a\r", "x\r\ny", "\r", "a\nb\n", "\n\nz"].iter()) {
        let v: Vec<char> = s.chars().collect();
        let got: Vec<String> =
            tuff_brg::text::line_ranges(&v).into_iter().map(|r| range_text(&v, r)).collect();
        let want: Vec<String> = s.lines().map(|l| l.to_string()).collect();
        assert_eq!(got, want, "lines of {:?}", s);
    }
}

#[test]
fn split_matches_std() {
    for s in ["", ";", "a;b", ";a;;b;", "no separator"] {
        let v: Vec<char> = s.chars().collect();
        let got: Vec<String> = tuff_brg::text::split_ranges(&v, 0, v.len(), ';')
            .into_iter()
            .map(|r| range_text(&v, r))
            .collect();
        let want: Vec<String> = s.split(';').map(|p| p.to_string()).collect();
        assert_eq!(got, want, "split of {:?}", s);
    }
}

#[test]
fn chars_of_keeps_every_char() {
    for s in SAMPLES {
        assert_eq!(tuff_brg::text::chars_of(s), s.chars().collect::<Vec<char>>());
    }
}
