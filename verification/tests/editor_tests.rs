use klc::code_folding::{analyze_folds, fold_source, toggle_fold, FoldBlock};
use klc::gui::{filter_control_characters, statusbar_height, to_wide, tree_width};

fn ranges(blocks: &[FoldBlock]) -> Vec<(usize, usize)> {
    blocks.iter().map(|b| (b.start_line, b.end_line)).collect()
}

#[test]
fn folds_span_at_least_three_lines() {
    let src = "fn a() {\n  x\n}\nfn b() { y }\nfn c() {\n}\n";
    let blocks = analyze_folds(src);
    assert_eq!(ranges(&blocks), vec![(0, 2)]);
    assert!(blocks.iter().all(|b| !b.folded));
}

#[test]
fn nested_blocks_fold_with_the_outermost() {
    let src = "a {\n b {\n  c\n }\n d {\n  e\n }\n}\nf {\n\n}";
    assert_eq!(ranges(&analyze_folds(src)), vec![(0, 7), (8, 10)]);
}

#[test]
fn unbalanced_braces() {
    // an extra closing brace pops nothing; an unclosed block is not foldable
    let src = "}\nx {\n\n}\ny {\n\n\n";
    assert_eq!(ranges(&analyze_folds(src)), vec![(1, 3)]);
    assert!(analyze_folds("").is_empty());
}

#[test]
fn crlf_lines_count_like_lf_lines() {
    let src = "x {\r\n\r\n}\r\n";
    assert_eq!(ranges(&analyze_folds(src)), vec![(0, 2)]);
}

#[test]
fn toggling_flips_the_first_block_containing_the_line() {
    let mut blocks = vec![
        FoldBlock { start_line: 0, end_line: 4, folded: false },
        FoldBlock { start_line: 2, end_line: 3, folded: false },
    ];
    assert!(toggle_fold(&mut blocks, 3));
    assert!(blocks[0].folded);
    assert!(!blocks[1].folded);
    assert!(toggle_fold(&mut blocks, 0));
    assert!(!blocks[0].folded);
    assert!(!toggle_fold(&mut blocks, 9));
    assert_eq!(ranges(&blocks), vec![(0, 4), (2, 3)]);
}

#[test]
fn folding_text_replaces_folded_blocks() {
    let blocks = vec![FoldBlock { start_line: 0, end_line: 2, folded: true }];
    assert_eq!(fold_source("a {\n b\n}\nc", &blocks), "{  // [folded: 1 lines]\r\n}\r\nc");
    assert_eq!(fold_source("", &[]), "");
    assert_eq!(fold_source("a\nb", &[]), "a\r\nb");
    // an unfolded block is left alone
    let open = vec![FoldBlock { start_line: 0, end_line: 2, folded: false }];
    assert_eq!(fold_source("a {\n b\n}", &open), "a {\r\n b\r\n}");
    // the marker takes the indentation of the block's first line
    let inner = vec![FoldBlock { start_line: 1, end_line: 4, folded: true }];
    assert_eq!(
        fold_source("fn f() {\n\tif x {\n  a\n  b\n\t}\n}", &inner),
        "fn f() {\r\n {  // [folded: 2 lines]\r\n\t}\r\n}"
    );
    // a block that ends past the text keeps no end line
    let past = vec![FoldBlock { start_line: 1, end_line: 9, folded: true }];
    assert_eq!(fold_source("x\n  y {\nz", &past), "x\r\n  {  // [folded: 7 lines]");
}

#[test]
fn panel_sizes() {
    assert_eq!(tree_width(), 200);
    assert_eq!(statusbar_height(), 24);
}

#[test]
fn control_characters_are_dropped() {
    let text: Vec<u16> = "a\tb\u{7}c\r\n\u{7f}é".encode_utf16().collect();
    let mut expected: Vec<u16> = "abc\r\né".encode_utf16().collect();
    expected.push(0);
    assert_eq!(filter_control_characters(&text), expected);
    assert_eq!(filter_control_characters(&[65, 0]), vec![65, 0]);
    assert!(filter_control_characters(&[1, 2, 3]).is_empty());
}

#[test]
fn bidirectional_marks_are_dropped() {
    assert_eq!(filter_control_characters(&[0x41, 0x200F, 0x200E, 0x0A, 0x00]), vec![0x41, 0x0A, 0x00]);
    assert_eq!(
        filter_control_characters(&[0x202E, 0x61C, 0x2066, 0x2069, 0x202A, 0x4E2D]),
        vec![0x4E2D, 0]
    );
}

#[test]
fn test_to_wide_matches_utf16() {
    for s in ["", "abc", "函数 main", "emoji \u{1F600}!"] {
        let mut expected: Vec<u16> = s.encode_utf16().collect();
        expected.push(0);
        assert_eq!(to_wide(s), expected);
    }
    assert_eq!(to_wide("\u{1F600}"), vec![0xD83D, 0xDE00, 0]);
}
