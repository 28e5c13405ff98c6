use solstone_tmux::name::{derive_component, valid_component, NameError};

fn derived(raw: &str) -> String {
    derive_component(raw).expect("component").as_str().to_owned()
}

#[test]
fn canonical_names_are_their_own_component() {
    for raw in ["main", "0", "a.b_c-d", "x..y"] {
        assert_eq!(derived(raw), raw);
        assert!(valid_component(raw));
    }
}

#[test]
fn other_names_carry_their_bytes() {
    assert_eq!(derived("My Session"), "My_Session~4d792053657373696f6e");
    assert_eq!(derived(".x"), ".x~2e78");
    assert_eq!(derived("a/b"), "a_b~612f62");
    assert_eq!(derived("é"), "_~c3a9");
    assert!(!valid_component("My Session"));
    assert!(!valid_component("A"));
}

#[test]
fn different_names_have_different_components() {
    let names = ["a b", "a_b", "a-b", "A_b", "a b ", "a\tb", "a/b"];
    for (i, a) in names.iter().enumerate() {
        for b in &names[i + 1..] {
            assert_ne!(derived(a), derived(b));
        }
    }
}

#[test]
fn names_that_lead_elsewhere_are_refused() {
    let error = |raw: &str| derive_component(raw).map(|_| ()).expect_err("refused");
    assert_eq!(error(""), NameError::Empty);
    assert_eq!(error("a\0b"), NameError::ContainsNul);
    assert_eq!(error("/etc"), NameError::Absolute);
    assert_eq!(error("."), NameError::Traversal);
    assert_eq!(error("a/../b"), NameError::Traversal);
    assert_eq!(error("a/."), NameError::Traversal);
    let long = "a".repeat(201);
    assert_eq!(
        error(&long),
        NameError::TooLong {
            actual: 201,
            limit: 200
        }
    );
    assert_eq!(derived(&"a".repeat(200)), "a".repeat(200));
    assert_eq!(
        error(&"A".repeat(67)),
        NameError::TooLong {
            actual: 202,
            limit: 200
        }
    );
}

#[test]
fn name_errors_say_what_is_wrong() {
    assert_eq!(NameError::Empty.message(), "identity must not be empty");
    assert_eq!(NameError::ContainsNul.message(), "identity must not contain NUL");
    assert_eq!(NameError::Absolute.message(), "identity must not be an absolute path");
    assert_eq!(NameError::Traversal.message(), "identity must not contain path traversal");
    assert_eq!(
        NameError::TooLong { actual: 201, limit: 200 }.message(),
        "derived identity is 201 bytes; the limit is 200 bytes"
    );
    assert_eq!(NameError::EscapesParent.message(), "derived identity escapes its parent");
}

#[test]
fn a_component_joins_as_a_direct_child() {
    let name = derive_component("main").expect("component");
    assert_eq!(name.join_checked(b"/data").expect("child"), b"/data/main");
    assert_eq!(name.join_checked(b"/").expect("child"), b"/main");
    assert_eq!(name.join_checked(b"").expect("child"), b"main");
    assert_eq!(name.session_filename(), "tmux_main_screen.jsonl");
}
