use arka::generator::{assemble_password, generate_password, GeneratorOptions};
use arka::ArkaError;

const UPPERCASE: &[u8] = b"ABCDEFGHIJKLMNOPQRSTUVWXYZ";
const LOWERCASE: &[u8] = b"abcdefghijklmnopqrstuvwxyz";
const DIGITS: &[u8] = b"0123456789";
const SPECIAL: &[u8] = b"!@#$%^&*()-_=+[]{}|;:,.<>?";

fn full_options(length: u32) -> GeneratorOptions {
    GeneratorOptions {
        length,
        use_uppercase: true,
        use_lowercase: true,
        use_numbers: true,
        use_special: true,
    }
}

fn contains_from_pool(password: &str, pool: &[u8]) -> bool {
    password.bytes().any(|byte| pool.contains(&byte))
}

#[test]
fn rejects_empty_charset() {
    let err = generate_password(GeneratorOptions {
        length: 16,
        use_uppercase: false,
        use_lowercase: false,
        use_numbers: false,
        use_special: false,
    })
    .unwrap_err();

    assert!(matches!(
        err,
        ArkaError::EmptyField { field } if field == "charset"
    ));
}

#[test]
fn rejects_zero_length() {
    let err = generate_password(full_options(0)).unwrap_err();
    assert!(matches!(
        err,
        ArkaError::EmptyField { field } if field == "length"
    ));
}

#[test]
fn rejects_length_shorter_than_active_pools() {
    let err = generate_password(full_options(3)).unwrap_err();
    assert!(matches!(
        err,
        ArkaError::EmptyField { field } if field == "length"
    ));
}

#[test]
fn includes_each_enabled_class() {
    let password = match generate_password(full_options(24)) {
        Ok(value) => value,
        Err(err) => panic!("generate_password failed: {err:?}"),
    };

    assert_eq!(password.len(), 24);
    assert!(contains_from_pool(&password, UPPERCASE));
    assert!(contains_from_pool(&password, LOWERCASE));
    assert!(contains_from_pool(&password, DIGITS));
    assert!(contains_from_pool(&password, SPECIAL));
}

#[test]
fn single_class_password() {
    let password = match generate_password(GeneratorOptions {
        length: 12,
        use_uppercase: false,
        use_lowercase: true,
        use_numbers: false,
        use_special: false,
    }) {
        Ok(value) => value,
        Err(err) => panic!("generate_password failed: {err:?}"),
    };

    assert_eq!(password.len(), 12);
    assert!(password.bytes().all(|b| LOWERCASE.contains(&b)));
}

#[test]
fn length_equal_to_class_count_is_accepted() {
    let password = generate_password(full_options(4)).unwrap();
    assert_eq!(password.len(), 4);
    assert!(contains_from_pool(&password, UPPERCASE));
    assert!(contains_from_pool(&password, LOWERCASE));
    assert!(contains_from_pool(&password, DIGITS));
    assert!(contains_from_pool(&password, SPECIAL));
}

#[test]
fn digits_and_special_only() {
    let password = generate_password(GeneratorOptions {
        length: 40,
        use_uppercase: false,
        use_lowercase: false,
        use_numbers: true,
        use_special: true,
    })
    .unwrap();
    assert_eq!(password.len(), 40);
    assert!(password.bytes().all(|b| DIGITS.contains(&b) || SPECIAL.contains(&b)));
    assert!(contains_from_pool(&password, DIGITS));
    assert!(contains_from_pool(&password, SPECIAL));
}

#[test]
fn two_classes_need_length_two() {
    let err = generate_password(GeneratorOptions {
        length: 1,
        use_uppercase: true,
        use_lowercase: false,
        use_numbers: true,
        use_special: false,
    })
    .unwrap_err();
    assert!(matches!(err, ArkaError::EmptyField { field } if field == "length"));
}

#[test]
fn assemble_password_follows_the_draws() {
    let pools = vec![vec!['A', 'B'], vec!['1', '2']];
    // picks: 'B', '1'; fill: joined "AB12"[3] = '2'; swaps at 2 <-> 1, then 1 <-> 0.
    assert_eq!(assemble_password(&pools, &vec![1, 0], &vec![3], &vec![0, 0, 1]), "2B1");
    assert_eq!(assemble_password(&pools, &vec![0, 1], &vec![], &vec![0, 0]), "2A");
    assert_eq!(assemble_password(&pools, &vec![0, 1], &vec![], &vec![0, 1]), "A2");
    assert_eq!(assemble_password(&pools, &vec![0, 1], &vec![0, 1], &vec![0, 1, 2, 3]), "A2AB");
}
