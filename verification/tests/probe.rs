use openssl::pkcs12::Pkcs12;
use openssl::pkey::PKey;
use openssl::rsa::Rsa;

use p12crack::bruteforce::BruteforceCracker;
use p12crack::container::Container;
use p12crack::cuda::CudaBruteforceCracker;
use p12crack::prefilter::Prefilter;
use p12crack::result_cell::CrackResult;
use p12crack::SetupError;

fn pw(s: &str) -> Vec<char> {
    s.chars().collect()
}

// Builds the DER bytes of a fresh PKCS#12 bundle protected by `pass`.
fn make_p12_der(pass: &str) -> Vec<u8> {
    let rsa = Rsa::generate(2048).expect("key generation");
    let pkey = PKey::from_rsa(rsa).expect("key wrapping");
    let mut builder = Pkcs12::builder();
    builder.name("probe-test");
    builder.pkey(&pkey);
    let p12 = builder.build2(pass).expect("bundle creation");
    p12.to_der().expect("DER encoding")
}

fn load(pass: &str) -> Container {
    Container::from_der(make_p12_der(pass)).expect("well-formed bundle")
}

// A screening stage that keeps only candidates opening with a fixed symbol.
// Sound for any corpus whose true password starts with that symbol.
struct FirstSymbolPrefilter {
    keep_first: char,
}

impl Prefilter for FirstSymbolPrefilter {
    fn available(&self) -> bool {
        true
    }

    fn screen(&self, _container: &Container, batch: &Vec<Vec<char>>) -> Vec<bool> {
        batch
            .iter()
            .map(|cand| cand.first() == Some(&self.keep_first))
            .collect()
    }
}

#[test]
fn found_when_password_in_space() {
    let container = load("ab");
    let cracker = BruteforceCracker::new(1, 2, String::from("ab"));
    let mut cell = CrackResult::new();
    cracker.crack(&container, &mut cell, 1).expect("setup is valid");
    assert!(cell.found);
    assert_eq!(cell.password, Some(pw("ab")));
}

#[test]
fn found_password_identical_for_any_worker_count() {
    let container = load("ba");
    let mut passwords = Vec::new();
    for workers in [1u64, 2, 3, 7] {
        let cracker = BruteforceCracker::new(1, 2, String::from("ab"));
        let mut cell = CrackResult::new();
        cracker
            .crack(&container, &mut cell, workers)
            .expect("setup is valid");
        assert!(cell.found, "not found with {} workers", workers);
        passwords.push(cell.password.clone());
    }
    for p in &passwords {
        assert_eq!(p, &Some(pw("ba")));
    }
}

#[test]
fn exhausted_when_password_absent() {
    let container = load("zz9");
    let cracker = BruteforceCracker::new(1, 2, String::from("ab"));
    let mut cell = CrackResult::new();
    cracker.crack(&container, &mut cell, 2).expect("setup is valid");
    assert!(!cell.found);
    assert_eq!(cell.password, None);
}

#[test]
fn prefilter_never_changes_the_outcome() {
    let container = load("ab");
    let cracker = BruteforceCracker::new(1, 2, String::from("ab"));

    let mut plain = CrackResult::new();
    cracker.crack(&container, &mut plain, 2).expect("setup is valid");

    let pf = FirstSymbolPrefilter { keep_first: 'a' };
    let mut screened = CrackResult::new();
    cracker
        .crack_with(&container, &mut screened, 2, &pf)
        .expect("setup is valid");

    assert_eq!(plain.found, screened.found);
    assert_eq!(plain.password, screened.password);
    assert_eq!(screened.password, Some(pw("ab")));
}

#[test]
fn accelerated_cracker_is_a_drop_in_substitute() {
    let container = load("b");
    let cpu = BruteforceCracker::new(1, 1, String::from("ab"));
    let gpu = CudaBruteforceCracker::new(1, 1, String::from("ab"));

    let mut cpu_cell = CrackResult::new();
    cpu.crack(&container, &mut cpu_cell, 2).expect("setup is valid");
    let mut gpu_cell = CrackResult::new();
    gpu.crack(&container, &mut gpu_cell, 2).expect("setup is valid");

    assert_eq!(cpu_cell.found, gpu_cell.found);
    assert_eq!(cpu_cell.password, gpu_cell.password);
    assert_eq!(gpu_cell.password, Some(pw("b")));
}

#[test]
fn malformed_container_is_rejected() {
    assert!(matches!(
        Container::from_der(vec![0x30, 0x03, 0x01, 0x02, 0x03]),
        Err(SetupError::MalformedContainer)
    ));
    assert!(Container::from_der(make_p12_der("x")).is_ok());
}

#[test]
fn setup_errors_are_reported_before_any_probe() {
    let container = load("irrelevant");

    let empty = BruteforceCracker::new(1, 2, String::new());
    let mut cell = CrackResult::new();
    assert_eq!(empty.crack(&container, &mut cell, 1), Err(SetupError::EmptyCharset));
    assert!(!cell.found);

    let duplicated = BruteforceCracker::new(1, 2, String::from("aba"));
    let mut cell = CrackResult::new();
    assert_eq!(
        duplicated.crack(&container, &mut cell, 1),
        Err(SetupError::DuplicateSymbol)
    );

    let nul = BruteforceCracker::new(1, 1, String::from("a\0b"));
    let mut cell = CrackResult::new();
    assert_eq!(nul.crack(&container, &mut cell, 1), Err(SetupError::UnsupportedSymbol));

    let inverted = BruteforceCracker::new(3, 2, String::from("ab"));
    let mut cell = CrackResult::new();
    assert_eq!(inverted.crack(&container, &mut cell, 1), Err(SetupError::InvalidBounds));
}

#[test]
fn oversized_space_is_a_setup_error() {
    // |C| = 62, lengths 1..=20: the space exceeds a 64-bit count and the run
    // must be rejected up front rather than searched over a wrapped size.
    let container = load("irrelevant");
    let charset: String = ('a'..='z').chain('A'..='Z').chain('0'..='9').collect();
    assert_eq!(charset.chars().count(), 62);
    let huge = BruteforceCracker::new(1, 20, charset);
    let mut cell = CrackResult::new();
    assert_eq!(huge.crack(&container, &mut cell, 4), Err(SetupError::SpaceTooLarge));
    assert!(!cell.found);
}
