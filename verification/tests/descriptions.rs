use cmem_eval_bench::descriptions::{probe_words, word_pool};

#[test]
fn probes_use_the_first_wording_or_the_held_out_last_one() {
    assert_eq!(probe_words("place", false), "Cedar reading room");
    assert_eq!(
        probe_words("place", true),
        "The quiet reading space surrounded by cedar bookcases"
    );
    assert_eq!(probe_words("participant", false), "Visitor wearing a linen coat");
    assert_eq!(word_pool("participant")[3], probe_words("participant", true));
    assert_eq!(word_pool("place").len(), 4);
}
