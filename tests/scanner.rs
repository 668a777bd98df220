use jumake::scanner::{find_block_end, find_first, leading_whitespace_width, paren_delta_of, trimmed, LineKind};

fn chars(s: &str) -> Vec<char> {
    s.chars().collect()
}

#[test]
fn paren_delta_counts_both_kinds() {
    assert_eq!(paren_delta_of(&chars("target_sources(${P}")), 1);
    assert_eq!(paren_delta_of(&chars("f(a) g(b))")), -1);
    assert_eq!(paren_delta_of(&chars("")), 0);
}

#[test]
fn leading_width_counts_unicode_whitespace() {
    assert_eq!(leading_whitespace_width(&chars(" \t\u{3000}x y")), 3);
    assert_eq!(leading_whitespace_width(&chars("   ")), 3);
    assert_eq!(trimmed(&chars("  a b \r")), chars("a b"));
}

#[test]
fn block_end_tracks_depth() {
    let lines: Vec<Vec<char>> = ["x", "target_sources(a", "  (b", "  c)", ")", "y"].iter().map(|l| chars(l)).collect();
    assert_eq!(find_first(&lines, LineKind::Opening, 0, lines.len()), Some(1));
    assert_eq!(find_block_end(&lines, 1), 4);
    assert_eq!(find_first(&lines, LineKind::SectionStop, 2, 4), None);
}
