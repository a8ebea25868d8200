use thermal::layout::{
    has_char, piece_text, pixel_width, saturating_product, LineBreaker, Placed, Run,
};
use thermal::segmenter::Piece;

fn run(span: usize, text: &str, x: usize, width: usize) -> Placed {
    Placed::Run(Run { span, text: text.to_string(), x, width })
}

fn piece(word: &str, whitespace: &str) -> Piece {
    Piece { word: word.to_string(), whitespace: whitespace.to_string() }
}

#[test]
fn has_char_finds_a_character() {
    assert!(has_char("a\tb", '\t'));
    assert!(has_char("\n", '\n'));
    assert!(!has_char("abc", '\n'));
    assert!(!has_char("", 'a'));
    assert!(has_char("漢字", '字'));
}

#[test]
fn saturating_product_stops_at_the_largest_value() {
    assert_eq!(saturating_product(6, 7), 42);
    assert_eq!(saturating_product(0, usize::MAX), 0);
    assert_eq!(saturating_product(usize::MAX, 2), usize::MAX);
    assert_eq!(saturating_product(usize::MAX / 2 + 1, 2), usize::MAX);
}

#[test]
fn pixel_width_counts_columns_and_spaces() {
    assert_eq!(pixel_width(5, 1, 12), 72);
    assert_eq!(pixel_width(4, 0, 24), 96);
    assert_eq!(pixel_width(0, 0, 12), 0);
    assert_eq!(pixel_width(7, 3, 0), 0);
    assert_eq!(pixel_width(u64::MAX, usize::MAX, 0), 0);
    assert_eq!(pixel_width(u64::MAX, 1, 1), usize::MAX);
    assert_eq!(pixel_width(2, usize::MAX, 1), usize::MAX);
    assert_eq!(pixel_width(1, 0, usize::MAX), usize::MAX);
    assert_eq!(pixel_width(3, 0, usize::MAX), usize::MAX);
}

#[test]
fn piece_text_is_the_word_with_its_spaces() {
    assert_eq!(piece_text(&piece("Hello", "  ")), "Hello  ");
    assert_eq!(piece_text(&piece("", " ")), " ");
    assert_eq!(piece_text(&piece("x", "")), "x");
}

#[test]
fn a_new_breaker_has_placed_nothing() {
    let breaker = LineBreaker::new();
    assert!(breaker.items.is_empty());
    assert_eq!(breaker.x, 0);
}

#[test]
fn append_puts_a_run_at_the_offset_and_moves_behind_it() {
    let mut breaker = LineBreaker::new();
    breaker.append(0, "ab ".to_string(), 36, 100);
    breaker.append(1, "cd".to_string(), 24, 100);
    assert_eq!(breaker.items, vec![run(0, "ab ", 0, 36), run(1, "cd", 36, 24)]);
    assert_eq!(breaker.x, 60);
}

#[test]
fn append_holds_the_offset_at_the_end_of_the_line() {
    let mut breaker = LineBreaker::new();
    breaker.append(0, "wide".to_string(), 150, 100);
    assert_eq!(breaker.items, vec![run(0, "wide", 0, 150)]);
    assert_eq!(breaker.x, 100);
    let mut breaker = LineBreaker::new();
    breaker.x = 10;
    breaker.append(0, "huge".to_string(), usize::MAX, 100);
    assert_eq!(breaker.x, 100);
}

#[test]
fn new_line_and_carriage_return() {
    let mut breaker = LineBreaker::new();
    breaker.append(0, "ab".to_string(), 24, 100);
    breaker.carriage_return();
    assert_eq!(breaker.x, 0);
    assert_eq!(breaker.items.len(), 1);
    breaker.append(0, "cd".to_string(), 24, 100);
    breaker.new_line();
    assert_eq!(breaker.x, 0);
    assert_eq!(breaker.items, vec![run(0, "ab", 0, 24), run(0, "cd", 0, 24), Placed::Break]);
}

#[test]
fn tab_moves_to_the_next_stop_in_the_line() {
    let mut breaker = LineBreaker::new();
    breaker.tab(96, 576);
    assert_eq!(breaker.x, 96);
    breaker.tab(96, 576);
    assert_eq!(breaker.x, 192);
    breaker.x = 200;
    breaker.tab(96, 576);
    assert_eq!(breaker.x, 288);
    breaker.x = 480;
    breaker.tab(96, 576);
    assert_eq!(breaker.x, 576);
    assert!(breaker.items.is_empty());
}

#[test]
fn tab_does_nothing_where_the_next_stop_is_behind_the_line() {
    let mut breaker = LineBreaker::new();
    breaker.x = 500;
    breaker.tab(96, 575);
    assert_eq!(breaker.x, 500);
    breaker.x = 576;
    breaker.tab(96, 576);
    assert_eq!(breaker.x, 576);
    breaker.x = 10;
    breaker.tab(0, 576);
    assert_eq!(breaker.x, 10);
    breaker.tab(usize::MAX, 576);
    assert_eq!(breaker.x, 10);
    breaker.x = usize::MAX;
    breaker.tab(1, usize::MAX);
    assert_eq!(breaker.x, usize::MAX);
}

#[test]
fn a_word_goes_behind_the_line_if_it_fits() {
    let mut breaker = LineBreaker::new();
    breaker.place_word(0, "abcd".to_string(), 48, 96);
    breaker.place_word(0, "efgh".to_string(), 48, 96);
    assert_eq!(breaker.items, vec![run(0, "abcd", 0, 48), run(0, "efgh", 48, 48)]);
    assert_eq!(breaker.x, 96);
}

#[test]
fn a_word_goes_onto_a_new_line_if_it_does_not_fit() {
    let mut breaker = LineBreaker::new();
    breaker.place_word(0, "abcd ".to_string(), 60, 96);
    breaker.place_word(1, "efgh".to_string(), 48, 96);
    assert_eq!(
        breaker.items,
        vec![run(0, "abcd ", 0, 60), Placed::Break, run(1, "efgh", 0, 48)]
    );
    assert_eq!(breaker.x, 48);
}

#[test]
fn a_fragment_goes_onto_a_new_line_if_one_more_glyph_would_not_fit() {
    let mut breaker = LineBreaker::new();
    breaker.place_fragment(0, "abcdefgh".to_string(), 96, 12, 100);
    assert_eq!(breaker.items, vec![run(0, "abcdefgh", 0, 96)]);
    breaker.place_fragment(0, "ijklmnop".to_string(), 96, 12, 100);
    breaker.place_fragment(0, "qr".to_string(), 24, 12, 100);
    assert_eq!(
        breaker.items,
        vec![
            run(0, "abcdefgh", 0, 96),
            Placed::Break,
            run(0, "ijklmnop", 0, 96),
            Placed::Break,
            run(0, "qr", 0, 24),
        ]
    );
    assert_eq!(breaker.x, 24);
}

#[test]
fn a_fragment_goes_behind_the_line_if_it_fits_with_one_more_glyph() {
    let mut breaker = LineBreaker::new();
    breaker.x = 12;
    breaker.place_fragment(0, "abc".to_string(), 36, 12, 60);
    assert_eq!(breaker.items, vec![run(0, "abc", 12, 36)]);
    assert_eq!(breaker.x, 48);
    breaker.place_fragment(0, "d".to_string(), 12, 12, 60);
    assert_eq!(breaker.items, vec![run(0, "abc", 12, 36), Placed::Break, run(0, "d", 0, 12)]);
}

#[test]
fn measure_uses_the_display_width_of_the_word() {
    assert_eq!(LineBreaker::measure(&piece("Hello", " "), 12), 72);
    assert_eq!(LineBreaker::measure(&piece("漢字", ""), 12), 48);
    assert_eq!(LineBreaker::measure(&piece("漢字", "  "), 24), 144);
    assert_eq!(LineBreaker::measure(&piece("", ""), 12), 0);
}

#[test]
fn control_words_move_the_offset_and_leave_no_text() {
    let mut breaker = LineBreaker::new();
    breaker.place_piece(0, &piece("ab", ""), 12, 8, 576);
    breaker.place_piece(0, &piece("\t", ""), 12, 8, 576);
    assert_eq!(breaker.x, 96);
    breaker.place_piece(0, &piece("cd", ""), 12, 8, 576);
    breaker.place_piece(0, &piece("\r", ""), 12, 8, 576);
    assert_eq!(breaker.x, 0);
    breaker.place_piece(0, &piece("\n", ""), 12, 8, 576);
    breaker.place_piece(0, &piece("ef", ""), 12, 8, 576);
    assert_eq!(
        breaker.items,
        vec![run(0, "ab", 0, 24), run(0, "cd", 96, 24), Placed::Break, run(0, "ef", 0, 24)]
    );
}

#[test]
fn a_word_wider_than_the_line_is_broken_into_lines() {
    let mut breaker = LineBreaker::new();
    breaker.place_piece(3, &piece("abcdefghijklmnopqrst", ""), 12, 8, 96);
    assert_eq!(
        breaker.items,
        vec![
            run(3, "abcdefgh", 0, 96),
            Placed::Break,
            run(3, "ijklmnop", 0, 96),
            Placed::Break,
            run(3, "qrst", 0, 48),
        ]
    );
    assert_eq!(breaker.x, 48);
}

#[test]
fn a_word_wider_than_the_line_keeps_all_its_characters() {
    for (word, width) in [("abcdefghijklmnopqrstuvwxyz", 100), ("漢字漢字漢字漢字漢", 49), ("x", 5)] {
        let mut breaker = LineBreaker::new();
        breaker.place_piece(0, &piece(word, " "), 12, 8, width);
        let mut text = String::new();
        let mut lines = 1;
        for item in &breaker.items {
            match item {
                Placed::Run(run) => {
                    text.push_str(&run.text);
                    assert_eq!(run.x, 0);
                }
                Placed::Break => lines += 1,
            }
        }
        assert_eq!(text, format!("{} ", word));
        assert!(lines >= 1);
    }
}

#[test]
fn a_long_word_behind_other_text_starts_on_a_new_line() {
    let mut breaker = LineBreaker::new();
    breaker.place_piece(0, &piece("ab", " "), 12, 8, 96);
    breaker.place_piece(0, &piece("abcdefghijkl", ""), 12, 8, 96);
    assert_eq!(
        breaker.items,
        vec![
            run(0, "ab ", 0, 36),
            Placed::Break,
            run(0, "abcdefgh", 0, 96),
            Placed::Break,
            run(0, "ijkl", 0, 48),
        ]
    );
}

#[test]
fn spaces_wider_than_the_line_are_dropped() {
    let mut breaker = LineBreaker::new();
    breaker.place_piece(0, &piece("", "          "), 12, 8, 96);
    assert!(breaker.items.is_empty());
    assert_eq!(breaker.x, 0);
}

#[test]
fn place_text_finds_the_words() {
    let mut breaker = LineBreaker::new();
    breaker.place_text(0, "Hello World", 12, 8, 576);
    assert_eq!(breaker.items, vec![run(0, "Hello ", 0, 72), run(0, "World", 72, 60)]);
    assert_eq!(breaker.x, 132);
}

#[test]
fn place_text_breaks_lines_between_words() {
    let mut breaker = LineBreaker::new();
    breaker.place_text(0, "Hello World again", 12, 8, 132);
    assert_eq!(
        breaker.items,
        vec![
            run(0, "Hello ", 0, 72),
            Placed::Break,
            run(0, "World ", 0, 72),
            run(0, "again", 72, 60),
        ]
    );
}

#[test]
fn place_text_breaks_between_cjk_characters() {
    let mut breaker = LineBreaker::new();
    breaker.place_text(2, "漢字", 12, 8, 576);
    assert_eq!(breaker.items, vec![run(2, "漢", 0, 24), run(2, "字", 24, 24)]);
    let mut breaker = LineBreaker::new();
    breaker.place_text(2, "漢字", 12, 8, 30);
    assert_eq!(breaker.items, vec![run(2, "漢", 0, 24), Placed::Break, run(2, "字", 0, 24)]);
}

#[test]
fn place_fragments_and_place_pieces_take_lists() {
    let mut breaker = LineBreaker::new();
    breaker.place_fragments(0, &vec![piece("abcd", ""), piece("ef", " ")], 12, 48);
    assert_eq!(
        breaker.items,
        vec![run(0, "abcd", 0, 48), Placed::Break, run(0, "ef ", 0, 36)]
    );
    let mut breaker = LineBreaker::new();
    breaker.place_pieces(1, &vec![piece("ab", " "), piece("\n", ""), piece("cd", "")], 12, 8, 48);
    assert_eq!(
        breaker.items,
        vec![run(1, "ab ", 0, 36), Placed::Break, run(1, "cd", 0, 24)]
    );
}
