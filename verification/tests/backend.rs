use wispee::backend::{classify_request, compress_request, reply_scores, InferenceBackend, SimulatedBackend};

#[test]
fn classify_request_lists_the_labels() {
    let labels = vec!["positive".to_string(), "negative".to_string()];
    let p = classify_request("great day", &labels).unwrap();
    assert_eq!(
        p,
        "Classify the following text. Reply with ONLY one of these labels: positive, negative\n\nText: great day"
    );
    assert!(classify_request("anything", &Vec::new()).is_none());
}

#[test]
fn compress_request_wraps_the_text() {
    assert_eq!(
        compress_request("abc"),
        "Summarise the following text in half the number of words. Reply with ONLY the summary, no preamble.\n\nabc"
    );
}

#[test]
fn reply_scores_match_trimmed_reply_ignoring_case() {
    let labels = vec!["positive".to_string(), "Negative".to_string()];
    let s = reply_scores("  NEGATIVE\n", &labels);
    assert_eq!(s.len(), 2);
    assert_eq!((s[0].label.as_str(), s[0].num, s[0].den), ("positive", 0, 1));
    assert_eq!((s[1].label.as_str(), s[1].num, s[1].den), ("Negative", 1, 1));
    let none = reply_scores("neutral", &labels);
    assert!(none.iter().all(|x| x.num == 0));
}

#[test]
fn simulated_backend_answers() {
    let b = SimulatedBackend::new("ok");
    assert_eq!(b.infer("q").ok().unwrap(), "ok");
    let labels = vec!["a".to_string(), "b".to_string(), "c".to_string()];
    let s = b.classify("q", &labels).ok().unwrap();
    assert!(s.iter().all(|x| x.num == 1 && x.den == 3));
    assert_eq!(b.compress("abcdef").ok().unwrap(), "abc");
    assert_eq!(b.act("do").ok().unwrap(), "do");
    assert_eq!(b.oracle("weather", &Vec::new()).ok().unwrap(), "<oracle:weather>");
}

#[test]
fn simulated_compress_cuts_back_to_a_character_boundary() {
    let b = SimulatedBackend::new("ok");
    assert_eq!(b.compress("é").ok().unwrap(), "");
    assert_eq!(b.compress("aé").ok().unwrap(), "a");
    assert_eq!(b.compress("éa").ok().unwrap(), "");
    assert_eq!(b.compress("").ok().unwrap(), "");
}

#[test]
fn trim_removes_unicode_white_space_at_both_ends() {
    assert_eq!(wispee::backend::trim("\u{3000} \tlabel x\u{2029}\n"), "label x");
    assert_eq!(wispee::backend::trim("   "), "");
    assert_eq!(wispee::backend::trim("a"), "a");
}
