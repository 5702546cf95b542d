use retrofit::secret::{authorize, bearer_secret};
use std::hash::{Hash, Hasher};

fn expected_secret(name: &str) -> String {
    let mut h = std::collections::hash_map::DefaultHasher::new();
    name.to_string().hash(&mut h);
    let seed = h.finish();
    let rng = <rand::rngs::StdRng as rand::SeedableRng>::seed_from_u64(seed);
    let drawn: String =
        rand::Rng::sample_iter(rng, rand::distributions::Alphanumeric).take(10).map(char::from).collect();
    format!("Bearer {}", drawn)
}

#[test]
fn secret_matches_the_seeded_stream() {
    assert_eq!(bearer_secret("plus"), expected_secret("plus"));
    assert_eq!(bearer_secret("greet"), expected_secret("greet"));
}

#[test]
fn secret_is_stable_and_depends_on_the_name() {
    let a = bearer_secret("greet");
    assert_eq!(a, bearer_secret("greet"));
    assert_ne!(a, bearer_secret("plus"));
    assert_eq!(a.len(), 17);
    assert!(a.starts_with("Bearer "));
    assert!(a[7..].chars().all(|c| c.is_ascii_alphanumeric()));
}

#[test]
fn guard_compares_the_header() {
    let s = bearer_secret("plus");
    assert!(authorize(Some(&s), &s));
    assert!(!authorize(None, &s));
    assert!(!authorize(Some("Bearer wrong"), &s));
    assert!(!authorize(Some(&bearer_secret("sum")), &s));
}
