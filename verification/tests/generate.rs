use passgen::alphabet::Alphabet;
use passgen::alphabet::Alphabet::Custom;
use passgen::password::Password;
use passgen::random::random_indices;

#[test]
fn test_generate() {
    let alphabet = Alphabet::Full;
    let password = Password::generate(12, &alphabet);
    assert_eq!(password.value.len(), 12);
    for c in password.value.chars() {
        assert!(alphabet.contains(c));
    }
}

#[test]
fn test_generate_empty() {
    let alphabet = Custom("abc".to_string());
    let password = Password::generate(0, &alphabet);
    assert_eq!(password.value.len(), 0);
}

#[test]
fn generate_over_empty_alphabet_is_empty() {
    let alphabet = Custom(String::new());
    let password = Password::generate(20, &alphabet);
    assert!(password.value.is_empty());
}

#[test]
fn generate_over_one_character_repeats_it() {
    let alphabet = Custom("x".to_string());
    let password = Password::generate(7, &alphabet);
    assert_eq!(password.value, "xxxxxxx");
}

#[test]
fn generate_counts_characters_not_bytes() {
    let alphabet = Custom("äöü".to_string());
    let password = Password::generate(9, &alphabet);
    assert_eq!(password.value.chars().count(), 9);
    for c in password.value.chars() {
        assert!("äöü".contains(c));
    }
}

#[test]
fn generate_varies() {
    let alphabet = Alphabet::LowerCase;
    let first = Password::generate(32, &alphabet);
    let mut varied = false;
    for _ in 0..10 {
        if Password::generate(32, &alphabet) != first {
            varied = true;
        }
    }
    assert!(varied);
}

#[test]
fn from_indices_picks_the_characters() {
    let alphabet = Custom("abcd".to_string());
    let password = Password::from_indices(&alphabet, &vec![3, 0, 0, 2, 1]).unwrap();
    assert_eq!(password.value, "daacb");
    let digits = Password::from_indices(&Alphabet::Digits, &vec![9, 8, 7]).unwrap();
    assert_eq!(digits.value, "987");
}

#[test]
fn from_indices_of_none_is_empty() {
    let password = Password::from_indices(&Alphabet::Full, &vec![]).unwrap();
    assert!(password.value.is_empty());
    let over_nothing = Password::from_indices(&Custom(String::new()), &vec![]).unwrap();
    assert!(over_nothing.value.is_empty());
}

#[test]
fn from_indices_refuses_a_position_outside() {
    let alphabet = Custom("abcd".to_string());
    assert!(Password::from_indices(&alphabet, &vec![0, 4]).is_none());
    assert!(Password::from_indices(&alphabet, &vec![usize::MAX]).is_none());
    assert!(Password::from_indices(&Custom(String::new()), &vec![0]).is_none());
}

#[test]
fn from_indices_counts_characters_not_bytes() {
    let alphabet = Custom("aé🎉z".to_string());
    let password = Password::from_indices(&alphabet, &vec![3, 2, 1]).unwrap();
    assert_eq!(password.value, "z🎉é");
    assert!(Password::from_indices(&alphabet, &vec![4]).is_none());
}

#[test]
fn random_indices_stay_below_the_bound() {
    let indices = random_indices(500, 7);
    assert_eq!(indices.len(), 500);
    assert!(indices.iter().all(|&i| i < 7));
    assert!(random_indices(0, 3).is_empty());
    assert!(random_indices(50, 1).iter().all(|&i| i == 0));
}

#[test]
fn random_indices_reach_every_value() {
    let indices = random_indices(2000, 4);
    for value in 0..4 {
        assert!(indices.contains(&value));
    }
}
