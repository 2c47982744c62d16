use arka::audit::{
    contains_weak_substring, count_weak_and_reused, weak_pattern_in, has_consecutive_run, inferred_pool_size,
    is_weak_password, VaultSecurityReport,
};
use arka::vault::DecryptedPasswordEntry;

fn entry(id: i64, password: &str) -> DecryptedPasswordEntry {
    DecryptedPasswordEntry {
        id,
        title: format!("Site-{id}"),
        username: "user".into(),
        category: String::new(),
        password: password.into(),
        website_url: String::new(),
        note: String::new(),
        created_at: 1,
        updated_at: 1,
    }
}

#[test]
fn empty_vault_counts_nothing() {
    assert_eq!(count_weak_and_reused(&vec![]), (0, 0));
}

#[test]
fn counts_weak_and_reused_passwords() {
    let strong = "Zx9!mK2$pL7@nQ4#wR8%tY6&uI3*oP1";
    let entries = vec![entry(1, "abc"), entry(2, "abc"), entry(3, strong)];
    assert_eq!(count_weak_and_reused(&entries), (2, 2));
}

#[test]
fn strong_unique_passwords_count_nothing() {
    let entries = vec![
        entry(1, "Zx9!mK2$pL7@nQ4#wR8%tY6&uI3*oP1"),
        entry(2, "Aa1!Bb2@Cc3#Dd4$Ee5%Ff6^Gg7&Hh8"),
    ];
    assert_eq!(count_weak_and_reused(&entries), (0, 0));
}

#[test]
fn dictionary_like_password_is_weak_despite_charset_mix() {
    assert!(is_weak_password("Admin123!@#"));
    assert!(contains_weak_substring("Admin123!@#"));
}

#[test]
fn consecutive_run_is_weak_despite_charset_mix() {
    assert!(is_weak_password("Aa1!bbb@Xy9"));
    assert!(has_consecutive_run("Aa1!bbb@Xy9"));
    assert!(!has_consecutive_run("aabbaa"));
}

#[test]
fn pool_size_follows_character_classes() {
    assert_eq!(inferred_pool_size(""), 1);
    assert_eq!(inferred_pool_size("abcdef"), 26);
    assert_eq!(inferred_pool_size("aB"), 52);
    assert_eq!(inferred_pool_size("aB1"), 62);
    assert_eq!(inferred_pool_size("aB1!"), 88);
    assert_eq!(inferred_pool_size("   "), 1);
    assert_eq!(inferred_pool_size("گاوصندوق۱۲۳"), 10);
    assert_eq!(inferred_pool_size("ééa"), 27);
}

#[test]
fn entropy_threshold_is_sixty_bits() {
    // 10 lowercase letters: 10 * log2(26) = 47 bits.
    assert!(is_weak_password("qzvkxmwtrp"));
    // 13 lowercase letters: 13 * log2(26) = 61.1 bits, no weak pattern.
    assert!(!is_weak_password("qzvkxmwtrpjgh"));
    // 8 chars from 88: 51.7 bits; 10 chars: 64.6 bits.
    assert!(is_weak_password("aB1!cD2@"));
    assert!(!is_weak_password("aB1!cD2@eF"));
    assert!(is_weak_password(""));
}

#[test]
fn report_fields() {
    let r = VaultSecurityReport { weak_passwords_count: 1, reused_passwords_count: 2, total_score: 3 };
    assert_eq!(r.clone(), r);
}

#[test]
fn reuse_counts_every_sharing_entry() {
    let entries = vec![
        entry(1, "Zx9!mK2$pL7@nQ4#wR8%tY6&uI3*oP1"),
        entry(2, "Zx9!mK2$pL7@nQ4#wR8%tY6&uI3*oP1"),
        entry(3, "Zx9!mK2$pL7@nQ4#wR8%tY6&uI3*oP1"),
        entry(4, "Aa1!Bb2@Cc3#Dd4$Ee5%Ff6^Gg7&Hh8"),
    ];
    assert_eq!(count_weak_and_reused(&entries), (0, 3));
}

#[test]
fn weak_patterns_are_case_sensitive_only_before_lowering() {
    assert!(weak_pattern_in("my-password!"));
    assert!(weak_pattern_in("x123y"));
    assert!(!weak_pattern_in("ADMIN"));
    assert!(contains_weak_substring("ADMIN"));
    assert!(!weak_pattern_in("12-3"));
}

#[test]
fn ascii_lowercase_is_per_character() {
    assert_eq!(arka::text::lowercase_chars("AbC-1 Z"), "abc-1 z".chars().collect::<Vec<char>>());
}
