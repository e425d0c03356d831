use dictate_desktop::fillers::{is_filler, strip_fillers};

#[test]
fn strips_leading_uh() {
    assert_eq!(
        strip_fillers("Uh, dispatch an agent to fix the secret CLI."),
        "Dispatch an agent to fix the secret CLI."
    );
}

#[test]
fn strips_midsentence() {
    assert_eq!(strip_fillers("I think, um, we should go."), "I think, we should go.");
}

#[test]
fn keeps_real_words() {
    let s = "The umbrella is uphill near Ahmed.";
    assert_eq!(strip_fillers(s), s);
}

#[test]
fn handles_uh_huh() {
    assert_eq!(strip_fillers("Uh-huh, exactly."), "Exactly.");
}

#[test]
fn fillers_match_in_any_case_and_punctuation() {
    assert!(is_filler("UM..."));
    assert!(is_filler("\"hmm,\""));
    assert!(is_filler("mm-hmm"));
    assert!(!is_filler("ah"));
    assert!(!is_filler("..."));
    assert!(!is_filler("umber"));
}

#[test]
fn a_text_of_fillers_only_stays() {
    assert_eq!(strip_fillers("Um, uh."), "Um, uh.");
    assert_eq!(strip_fillers(""), "");
    assert_eq!(strip_fillers("   "), "   ");
}

#[test]
fn text_without_fillers_keeps_its_spacing() {
    assert_eq!(strip_fillers("two  spaces\tand a tab"), "two  spaces\tand a tab");
}

#[test]
fn the_first_word_left_is_capitalized() {
    assert_eq!(strip_fillers("um écrire une lettre"), "Écrire une lettre");
    assert_eq!(strip_fillers("er ßtraße"), "SStraße");
}

#[test]
fn a_word_that_becomes_sentence_initial_is_capitalized() {
    assert_eq!(strip_fillers("It works. Um, so we go."), "It works. So we go.");
    assert_eq!(strip_fillers("Really? uh, er, yes! hmm no."), "Really? Yes! No.");
    assert_eq!(strip_fillers("It works, um, so we go."), "It works, so we go.");
    assert_eq!(strip_fillers("It works. so um we go."), "It works. so we go.");
    assert_eq!(strip_fillers("Uh. it works um. so we go."), "It works so we go.");
}

#[test]
fn stripping_twice_is_stripping_once() {
    for s in [
        "It works. Um, so we go.",
        "um , , so uh !",
        "Uh-huh, exactly.",
        "no fillers  here",
        "um",
        "a um ,b er .c",
    ] {
        let once = strip_fillers(s);
        assert_eq!(strip_fillers(&once), once);
    }
}
