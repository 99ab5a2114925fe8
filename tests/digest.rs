use cargo_audit_build::answer::{is_affirmative, prompt_bool};
use cargo_audit_build::digest::{hex_encode, hook_digest};

#[test]
fn digest_of_empty_file() {
    assert_eq!(
        hook_digest(b""),
        "e3b0c44298fc1c149afbf4c8996fb92427ae41e4649b934ca495991b7852b855"
    );
}

#[test]
fn digest_of_known_contents() {
    assert_eq!(
        hook_digest(b"abc"),
        "ba7816bf8f01cfea414140de5dae2223b00361a396177a9cb410ff61f20015ad"
    );
    assert_eq!(
        hook_digest(b"fn main() {}\n"),
        "536e506bb90914c243a12b397b9a998f85ae2cbd9ba02dfd03a9e155ca5ca0f4"
    );
}

#[test]
fn identical_bytes_give_identical_digests() {
    let a = b"fn main() { println!(\"hi\"); }".to_vec();
    let b = a.clone();
    assert_eq!(hook_digest(&a), hook_digest(&b));
    assert_ne!(hook_digest(&a), hook_digest(b"fn main() {}"));
}

#[test]
fn hex_is_lower_case_two_digits_per_byte() {
    assert_eq!(hex_encode(&[0x00, 0x0a, 0xff, 0x10]), "000aff10");
    assert_eq!(hex_encode(&[]), "");
}

#[test]
fn answers_that_trust() {
    for a in ["y", "Y", "yes", "YES", "Yes", "  y\n", "\tyes \r\n"] {
        assert!(prompt_bool(a), "{:?}", a);
    }
}

#[test]
fn answers_that_do_not_trust() {
    for a in ["", "\n", "n", "no", "yess", "ye", "y y", "true", "1"] {
        assert!(!prompt_bool(a), "{:?}", a);
    }
}

#[test]
fn folded_answer_check() {
    assert!(is_affirmative("y"));
    assert!(is_affirmative("yes"));
    assert!(!is_affirmative("Y"));
    assert!(!is_affirmative(" y"));
    assert!(!is_affirmative("yes "));
}
