use ns_engine::echo::{copied_span, longest_common_run, word_count, words};

fn echo_ratio(reply: &str, material: &str) -> f32 {
    match copied_span(reply, material) {
        Some((len, _)) => len as f32 / word_count(reply).max(1) as f32,
        None => 0.0,
    }
}

fn echoed(reply: &str, material: &str, max_ratio: f32) -> Option<String> {
    let (len, span) = copied_span(reply, material)?;
    let ratio = len as f32 / word_count(reply).max(1) as f32;
    (ratio >= max_ratio).then_some(span)
}

#[test]
fn a_reply_lifted_whole_from_the_prompt_scores_one() {
    let material = "Recent turns:\n[t140] user: what was my name last time\n      \
                    did:  ToolReturned(ok: fact user.previous_name = \"Tomas\")";
    assert_eq!(echo_ratio("fact user.previous_name = Tomas", material), 1.0);
    assert!(echoed("fact user.previous_name = Tomas", material, 0.6).is_some());
}

#[test]
fn reformatting_does_not_hide_the_copy() {
    let material = "fact user.previous_name = \"Tomas\"";
    assert_eq!(echo_ratio("Fact user previous_name=Tomas", material), 1.0);
}

#[test]
fn an_honest_answer_over_the_same_facts_is_not_an_echo() {
    let material = "Standing facts:\n- user.previous_name: \"Tomas\"\n- user.age: \"17\"";
    let reply = "You went by Tomas before, and you told me you are 17.";
    assert!(echo_ratio(reply, material) < 0.6, "{reply}");
    assert!(echoed(reply, material, 0.6).is_none());
}

#[test]
fn short_replies_are_below_the_floor() {
    let material = "Recent turns:\n[t2] user: hi\n      bot:  hi";
    assert_eq!(echo_ratio("hi", material), 0.0);
    assert_eq!(echo_ratio("Yes, that is right.", material), 0.0);
    assert_eq!(echo_ratio("", material), 0.0);
}

#[test]
fn the_ratio_is_the_copied_fraction() {
    let material = "the quick brown fox jumps over the lazy dog";
    // 5 of the reply's 10 words are one verbatim run.
    let r = echo_ratio("the quick brown fox jumps and made up five words", material);
    assert!((r - 0.5).abs() < 0.01, "{r}");
}

#[test]
fn the_span_returned_is_the_copied_text() {
    let material = "ToolReturned(ok: fact user.previous_name = \"Tomas\")";
    assert_eq!(
        echoed("fact user.previous_name = Tomas", material, 0.6).as_deref(),
        Some("fact user previous name tomas")
    );
}

#[test]
fn a_reply_sharing_nothing_scores_zero() {
    assert_eq!(echo_ratio("completely unrelated prose here", "abc def"), 0.0);
}

#[test]
fn words_are_folded_and_cut_at_everything_that_is_no_letter_or_number() {
    assert_eq!(words("Fact user.previous_name = \"TOMÁŠ\""), vec!["fact", "user", "previous", "name", "tomáš"]);
    assert_eq!(word_count("a-b, c"), 3);
    assert_eq!(word_count("…"), 0);
}

#[test]
fn the_longest_shared_run_ends_where_it_is_found_first() {
    let a = words("one two three four one two");
    let b = words("zero one two three nine one two");
    // Three words, ending behind the third of the first text.
    assert_eq!(longest_common_run(&a, &b), (3, 3));
    assert_eq!(longest_common_run(&a, &Vec::new()), (0, 0));
}
