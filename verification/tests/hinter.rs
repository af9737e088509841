use hyveos::command_line::FamilyId;
use hyveos::hinter::{CommandHint, FamilyHinter};

#[test]
fn command_hint_completes_up_to_its_prefix() {
    let h = CommandHint::new("KAD GET key", "KAD GET ");
    assert_eq!(h.display(), "KAD GET key");
    assert_eq!(h.completion(), Some("KAD GET "));
    let s = h.suffix(4);
    assert_eq!(s.display(), "GET key");
    assert_eq!(s.completion(), Some("GET "));
    let t = h.suffix(10);
    assert_eq!(t.display(), "y");
    assert_eq!(t.completion(), None);
}

#[test]
fn hint_of_a_partial_word_is_the_first_command_in_key_order() {
    let hinter = FamilyHinter::all();
    let h = hinter.try_hint("KAD P", 5).unwrap().unwrap();
    assert_eq!(h.display(), "ROVIDE key");
    assert_eq!(h.completion(), Some("ROVIDE "));
    let h = hinter.hint("kad p", 5).unwrap();
    assert_eq!(h.display(), "ROVIDE key");
}

#[test]
fn hint_of_quit_and_of_a_whole_command() {
    let hinter = FamilyHinter::all();
    let h = hinter.hint("QU", 2).unwrap();
    assert_eq!(h.display(), "IT");
    assert_eq!(h.completion(), Some("IT"));
    let h = hinter.hint("KAD BOOT", 8).unwrap();
    assert_eq!(h.display(), "");
    assert_eq!(h.completion(), None);
}

#[test]
fn no_hint_before_the_end_or_for_nothing_known() {
    let hinter = FamilyHinter::all();
    assert!(hinter.hint("KAD", 1).is_none());
    assert!(hinter.hint("", 0).is_none());
    assert!(hinter.hint("ZZZ", 3).is_none());
    assert_eq!(hinter.try_hint("ZZZ", 3), Some(None));
}

#[test]
fn family_hints_are_added_under_completion_prefixes() {
    let mut hinter = FamilyHinter::empty();
    assert!(hinter.hint("M", 1).is_none());
    hinter.add_family(FamilyId::Me);
    let h = hinter.hint("M", 1).unwrap();
    assert_eq!(h.display(), "E ID");
    assert_eq!(h.completion(), Some("E ID"));
    hinter.add_quit();
    let h = hinter.hint("Q", 1).unwrap();
    assert_eq!(h.display(), "UIT");
}

#[test]
fn command_hint_counts_its_completable_part_in_bytes() {
    let h = CommandHint::new("ÄB C", "ÄB ");
    assert_eq!(h.display(), "ÄB C");
    assert_eq!(h.completion(), Some("ÄB "));
    let s = h.suffix(2);
    assert_eq!(s.display(), "B C");
    assert_eq!(s.completion(), Some("B "));
}

#[test]
fn no_suffix_inside_a_character() {
    let mut hinter = FamilyHinter::empty();
    hinter.insert("A", CommandHint::new("AÄ", "A"));
    assert_eq!(hinter.try_hint("a", 2), None);
    let h = hinter.try_hint("a", 3).unwrap().unwrap();
    assert_eq!(h.display(), "");
    assert_eq!(h.completion(), None);
}
