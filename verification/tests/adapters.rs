use multiwallet::address::Address;
use multiwallet::error::WalletError;
use multiwallet::wallet::{normalize_key, Derivation, MultiWallet};

fn strs(v: &[&str]) -> Vec<String> {
    v.iter().map(|s| s.to_string()).collect()
}

const KEY_A: &str = "ae83af4b9153ec5f6e47d4c2ce8120f966ff1ffccea4d7b14f1e9146ea8e1b60";
const KEY_B: &str = "0xae83af4b9153ec5f6e47d4c2ce8120f966ff1ffccea4d7b14f1e9146ea8e1b60";

#[test]
fn private_keys_strip_optional_prefix() {
    let w = MultiWallet { private_keys: Some(strs(&[KEY_A, KEY_B])), ..MultiWallet::default() };
    let ks = w.private_keys().expect("well-formed keys").expect("configured");
    assert_eq!(ks.len(), 2);
    assert_eq!(ks[0], KEY_A);
    assert_eq!(ks[1], KEY_A);
}

#[test]
fn private_keys_not_configured() {
    let w = MultiWallet::default();
    assert!(w.private_keys().expect("no failure").is_none());
}

#[test]
fn private_keys_reject_bad_length() {
    let w = MultiWallet {
        private_keys: Some(strs(&["0xabc"])),
        ..MultiWallet::default()
    };
    assert!(matches!(w.private_keys(), Err(WalletError::InvalidKey)));
}

#[test]
fn private_keys_reject_non_hex() {
    let mut bad = String::from(&KEY_A[..63]);
    bad.push('g');
    let w = MultiWallet { private_keys: Some(vec![bad]), ..MultiWallet::default() };
    assert!(matches!(w.private_keys(), Err(WalletError::InvalidKey)));
}

#[test]
fn normalize_key_checks_hex() {
    assert_eq!(normalize_key(KEY_B).expect("valid"), KEY_A);
    assert_eq!(normalize_key(KEY_A).expect("valid"), KEY_A);
    assert!(normalize_key("0x12").is_none());
    assert!(normalize_key("").is_none());
}

#[test]
fn keys_are_trimmed_before_validation() {
    let padded = format!("  {} \n", KEY_B);
    assert_eq!(normalize_key(&padded).expect("whitespace is trimmed"), KEY_A);
    assert_eq!(normalize_key("  \t "), None);
    let w = MultiWallet { private_keys: Some(vec![padded]), ..MultiWallet::default() };
    let ks = w.private_keys().expect("trimmed key is valid").expect("configured");
    assert_eq!(ks[0], KEY_A);
}

#[test]
fn keystores_password_count_mismatch() {
    let w = MultiWallet {
        keystore_paths: Some(strs(&["a.json", "b.json"])),
        keystore_passwords: Some(strs(&["pw"])),
        ..MultiWallet::default()
    };
    assert!(matches!(w.keystores(), Err(WalletError::PasswordCountMismatch)));
}

#[test]
fn keystores_pair_passwords_positionally() {
    let w = MultiWallet {
        keystore_paths: Some(strs(&["a.json", "b.json"])),
        keystore_passwords: Some(strs(&["one", "two"])),
        ..MultiWallet::default()
    };
    let jobs = w.keystores().expect("counts match").expect("configured");
    assert_eq!(jobs.len(), 2);
    assert_eq!(jobs[0].path, "a.json");
    assert_eq!(jobs[0].password.as_deref(), Some("one"));
    assert_eq!(jobs[1].path, "b.json");
    assert_eq!(jobs[1].password.as_deref(), Some("two"));
}

#[test]
fn keystores_without_passwords_use_none() {
    let w = MultiWallet {
        keystore_paths: Some(strs(&["a.json", "b.json"])),
        keystore_passwords: None,
        ..MultiWallet::default()
    };
    let jobs = w.keystores().expect("no mismatch").expect("configured");
    assert!(jobs.iter().all(|j| j.password.is_none()));
}

#[test]
fn keystores_empty_password_list_uses_none() {
    let w = MultiWallet {
        keystore_paths: Some(strs(&["a.json"])),
        keystore_passwords: Some(vec![]),
        ..MultiWallet::default()
    };
    let jobs = w.keystores().expect("no mismatch").expect("configured");
    assert_eq!(jobs.len(), 1);
    assert!(jobs[0].password.is_none());
}

#[test]
fn keystores_not_configured() {
    let w = MultiWallet::default();
    assert!(w.keystores().expect("no failure").is_none());
}

#[test]
fn mnemonics_short_lists_default_not_truncate() {
    // Three phrases, one path, one passphrase, two indices: the missing
    // positions behave as None / 0, never as an out-of-range failure.
    let w = MultiWallet {
        mnemonics: Some(strs(&["m one", "m two", "m three"])),
        hd_paths: Some(strs(&["m/44'/60'/0'/0/1"])),
        mnemonic_passphrases: Some(strs(&["pp"])),
        mnemonic_indexes: Some(vec![5, 6]),
        ..MultiWallet::default()
    };
    let jobs = w.mnemonics().expect("configured");
    assert_eq!(jobs.len(), 3);
    assert_eq!(jobs[0].hd_path.as_deref(), Some("m/44'/60'/0'/0/1"));
    assert_eq!(jobs[0].passphrase.as_deref(), Some("pp"));
    assert_eq!(jobs[0].index, 5);
    assert_eq!(jobs[1].hd_path, None);
    assert_eq!(jobs[1].passphrase, None);
    assert_eq!(jobs[1].index, 6);
    assert_eq!(jobs[2].hd_path, None);
    assert_eq!(jobs[2].passphrase, None);
    assert_eq!(jobs[2].index, 0);
    assert_eq!(jobs[2].mnemonic, "m three");
}

#[test]
fn mnemonics_not_configured() {
    assert!(MultiWallet::default().mnemonics().is_none());
}

#[test]
fn ledger_rejects_two_derivation_paths() {
    let w = MultiWallet {
        ledger: true,
        hd_paths: Some(strs(&["m/44'/60'/0'/0/0", "m/44'/60'/0'/0/1"])),
        ..MultiWallet::default()
    };
    assert!(matches!(w.ledgers(), Err(WalletError::MultiPathUnsupported)));
}

#[test]
fn ledger_single_path_clears_indices() {
    let w = MultiWallet {
        ledger: true,
        hd_paths: Some(strs(&["m/44'/60'/0'/0/0"])),
        mnemonic_indexes: Some(vec![1, 2, 3]),
        ..MultiWallet::default()
    };
    let work = w.ledgers().expect("one path is fine").expect("configured");
    assert_eq!(work.len(), 1);
    assert!(matches!(&work[0], Derivation::Path(p) if p == "m/44'/60'/0'/0/0"));
}

#[test]
fn ledger_not_configured() {
    assert!(MultiWallet::default().ledgers().expect("no failure").is_none());
}

#[test]
fn trezor_paths_override_indices() {
    let w = MultiWallet {
        trezor: true,
        hd_paths: Some(strs(&["m/44'/60'/0'/0/0"])),
        mnemonic_indexes: Some(vec![4, 9]),
        ..MultiWallet::default()
    };
    let work = w.trezors().expect("configured");
    assert_eq!(work.len(), 1);
    assert!(matches!(&work[0], Derivation::Path(p) if p == "m/44'/60'/0'/0/0"));
}

#[test]
fn trezor_indices_without_paths() {
    let w = MultiWallet {
        trezor: true,
        mnemonic_indexes: Some(vec![4, 9]),
        ..MultiWallet::default()
    };
    let work = w.trezors().expect("configured");
    assert_eq!(work.len(), 2);
    assert!(matches!(work[0], Derivation::Index(4)));
    assert!(matches!(work[1], Derivation::Index(9)));
}

#[test]
fn hardware_fallback_is_index_zero() {
    let w = MultiWallet { trezor: true, ..MultiWallet::default() };
    let work = w.trezors().expect("configured");
    assert_eq!(work.len(), 1);
    assert!(matches!(work[0], Derivation::Index(0)));
}

#[test]
fn trezor_not_configured() {
    assert!(MultiWallet::default().trezors().is_none());
}

#[test]
fn interactives_counter() {
    let w = MultiWallet { interactives: 3, ..MultiWallet::default() };
    assert_eq!(w.interactives(), Some(3));
    assert_eq!(MultiWallet::default().interactives(), None);
}

#[test]
fn sender_is_first_from() {
    let a = Address::new(1, 2, 3);
    let b = Address::new(4, 5, 6);
    let w = MultiWallet { froms: Some(vec![a, b]), ..MultiWallet::default() };
    assert_eq!(w.sender(), Some(a));
    assert_eq!(MultiWallet::default().sender(), None);
    let empty = MultiWallet { froms: Some(vec![]), ..MultiWallet::default() };
    assert_eq!(empty.sender(), None);
}

#[test]
fn error_messages_name_each_failure() {
    assert_eq!(WalletError::InvalidKey.message(), "Invalid private key.");
    assert_eq!(
        WalletError::PasswordCountMismatch.message(),
        "Keystore passwords don't have the same length as keystore paths."
    );
    assert_eq!(WalletError::KeystoreDecryptError.message(), "Failed to decrypt keystore.");
    assert_eq!(
        WalletError::MnemonicDerivationError.message(),
        "Failed to derive wallet from mnemonic."
    );
    assert_eq!(WalletError::PromptAborted.message(), "Interactive prompt was aborted.");
    assert_eq!(WalletError::MultiPathUnsupported.message(), "Ledger only supports one signer.");
    assert_eq!(WalletError::DeviceUnavailable.message(), "Hardware device not available.");
    assert_eq!(WalletError::ChainQueryError.message(), "Failed to query the chain id.");
}
