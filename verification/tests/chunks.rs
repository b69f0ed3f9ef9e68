use botox::chunking::split_text;
use botox::twitch_client::{split_message, MSG_LEN};

fn word(c: char, n: usize) -> String {
    std::iter::repeat(c).take(n).collect()
}

#[test]
fn three_long_words_make_three_chunks() {
    let text = [word('a', 490), word('b', 490), word('c', 490)].join(" ");
    let chunks = split_message(&text);
    assert_eq!(chunks, vec![word('a', 490), word('b', 490), word('c', 490)]);
}

#[test]
fn a_text_of_1200_characters_is_cut_into_the_fewest_chunks() {
    let mut words: Vec<String> = (0..239).map(|_| word('w', 4)).collect();
    words.push(word('w', 5));
    let text = words.join(" ");
    assert_eq!(text.len(), 1200);
    let chunks = split_message(&text);
    assert_eq!(chunks.len(), 3);
    assert_eq!(chunks[0].len(), 499);
    assert_eq!(chunks[1].len(), 499);
    assert_eq!(chunks[2].len(), 200);
    for chunk in &chunks {
        assert!(chunk.len() <= MSG_LEN);
    }
    assert_eq!(chunks.join(" "), text);
    let rejoined: Vec<String> =
        chunks.iter().flat_map(|c| c.split(' ')).map(String::from).collect();
    assert_eq!(rejoined, words);
}

#[test]
fn white_space_between_words_becomes_one_space() {
    assert_eq!(split_message("  one \t two\r\n three  "), vec![String::from("one two three")]);
}

#[test]
fn an_empty_text_has_no_chunk() {
    assert_eq!(split_message(""), Vec::<String>::new());
    assert_eq!(split_message(" \n\t "), Vec::<String>::new());
}

#[test]
fn a_word_longer_than_the_limit_gets_a_chunk_to_itself() {
    let text = format!("a {} b", word('x', 600));
    assert_eq!(
        split_message(&text),
        vec![String::from("a"), word('x', 600), String::from("b")]
    );
}

#[test]
fn a_chunk_may_be_exactly_as_long_as_the_limit() {
    let text = format!("{} {}", word('a', 249), word('b', 250));
    assert_eq!(split_message(&text), vec![text.clone()]);
    let text = format!("{} {}", word('a', 250), word('b', 250));
    assert_eq!(split_message(&text), vec![word('a', 250), word('b', 250)]);
}

#[test]
fn the_limit_counts_bytes() {
    let text = format!("{} {}", word('é', 125), word('é', 125));
    assert_eq!(text.len(), 501);
    assert_eq!(split_message(&text), vec![word('é', 125), word('é', 125)]);
    let text = format!("{} {}", word('é', 124), word('é', 125));
    assert_eq!(text.len(), 499);
    assert_eq!(split_message(&text), vec![text.clone()]);
}

#[test]
fn split_text_takes_any_limit() {
    assert_eq!(
        split_text("aa bb cc dd", 5),
        vec![String::from("aa bb"), String::from("cc dd")]
    );
    assert_eq!(
        split_text("aa bb cc dd", 4),
        vec![String::from("aa"), String::from("bb"), String::from("cc"), String::from("dd")]
    );
    assert_eq!(
        split_text("aa bb cc dd", 0),
        vec![String::from("aa"), String::from("bb"), String::from("cc"), String::from("dd")]
    );
    assert_eq!(split_text("aa bb cc dd", 11), vec![String::from("aa bb cc dd")]);
    assert_eq!(split_text("a bbbb c", 3), vec![String::from("a"), String::from("bbbb"), String::from("c")]);
}
