//! Resolution failures.
//!
//! Every adapter-local failure is fatal to the whole resolution call; only
//! `UnresolvedAddresses` is a "successful evaluation, insufficient result"
//! outcome, and it carries the unresolved targets and the unlocked-but-unused
//! wallet addresses for diagnosis.

use vstd::prelude::*;
use crate::address::{
    default_sender, default_sender_address, render_address, render_address_spec, Address,
};
use crate::address_set::AddressSet;

verus! {

/// Why a resolution call failed.
#[derive(Debug)]
pub enum WalletError {
    /// A supplied raw private key is not well-formed.
    InvalidKey,
    /// Keystore passwords were supplied but their count differs from the
    /// keystore path count.
    PasswordCountMismatch,
    /// A keystore file could not be read or decrypted.
    KeystoreDecryptError,
    /// A mnemonic phrase or derivation path was malformed.
    MnemonicDerivationError,
    /// The interactive secret prompt was canceled.
    PromptAborted,
    /// A single-signer hardware device was configured with more than one
    /// derivation path.
    MultiPathUnsupported,
    /// A hardware device could not be reached; hardware sources are
    /// all-or-nothing.
    DeviceUnavailable,
    /// The network provider could not report the active chain id.
    ChainQueryError,
    /// Every source was exhausted and targets remain unclaimed. `unused`
    /// lists all unlocked wallet addresses, the redundant ones first and the
    /// claimed ones after them, in the order they were found.
    UnresolvedAddresses { remaining: AddressSet, unused: Vec<Address> },
}

/// The warning appended to the diagnostic when the placeholder sender
/// address is among the unresolved targets.
pub open spec fn warning_text() -> Seq<char> {
    "\nYou seem to be using the default sender. Be sure to set your own sender.\n"@
}

/// The opening of the `UnresolvedAddresses` diagnostic; the unresolved
/// addresses follow it.
pub open spec fn unresolved_text() -> Seq<char> {
    "No associated wallet for addresses:"@
}

/// The middle of the `UnresolvedAddresses` diagnostic; the unlocked wallet
/// addresses follow it.
pub open spec fn unlocked_text() -> Seq<char> {
    ". Unlocked wallets:"@
}

/// The rendering of a list of addresses: each preceded by one space.
pub open spec fn render_list_spec(s: Seq<Address>) -> Seq<char>
    decreases s.len(),
{
    if s.len() == 0 {
        Seq::<char>::empty()
    } else {
        render_list_spec(s.drop_last()) + " "@ + render_address_spec(s.last())
    }
}

/// Renders a list of addresses, each preceded by one space.
fn render_address_list(v: &Vec<Address>) -> (r: String)
    ensures
        r@ == render_list_spec(v@),
{
    let mut out = String::new();
    proof {
        assert(v@.subrange(0, 0) =~= Seq::<Address>::empty());
    }
    let mut i: usize = 0;
    while i < v.len()
        invariant
            0 <= i <= v.len(),
            out@ == render_list_spec(v@.subrange(0, i as int)),
        decreases v.len() - i,
    {
        out.append(" ");
        let rendered = render_address(&v[i]);
        out.append(rendered.as_str());
        proof {
            let sub1 = v@.subrange(0, i + 1);
            assert(sub1.drop_last() =~= v@.subrange(0, i as int));
            assert(sub1.last() == v@[i as int]);
            assert(out@ =~= render_list_spec(sub1));
        }
        i = i + 1;
    }
    proof {
        assert(v@.subrange(0, v@.len() as int) =~= v@);
    }
    out
}

/// Whether a rendered message opens with the default-sender warning.
pub open spec fn has_warning_prefix(s: Seq<char>) -> bool {
    s.len() >= warning_text().len() && s.subrange(0, warning_text().len() as int)
        == warning_text()
}

impl WalletError {
    /// The rendered diagnostic for this failure.
    pub open spec fn message_spec(self) -> Seq<char> {
        match self {
            WalletError::InvalidKey => "Invalid private key."@,
            WalletError::PasswordCountMismatch =>
                "Keystore passwords don't have the same length as keystore paths."@,
            WalletError::KeystoreDecryptError => "Failed to decrypt keystore."@,
            WalletError::MnemonicDerivationError => "Failed to derive wallet from mnemonic."@,
            WalletError::PromptAborted => "Interactive prompt was aborted."@,
            WalletError::MultiPathUnsupported => "Ledger only supports one signer."@,
            WalletError::DeviceUnavailable => "Hardware device not available."@,
            WalletError::ChainQueryError => "Failed to query the chain id."@,
            WalletError::UnresolvedAddresses { remaining, unused } => {
                let body = unresolved_text() + render_list_spec(remaining.addrs@)
                    + unlocked_text() + render_list_spec(unused@);
                if remaining@.contains(default_sender()) {
                    warning_text() + body
                } else {
                    body
                }
            },
        }
    }

    /// Renders the failure as one human-readable message.
    pub fn message(&self) -> (r: String)
        ensures
            r@ == self.message_spec(),
    {
        match self {
            WalletError::InvalidKey => String::from_str("Invalid private key."),
            WalletError::PasswordCountMismatch => String::from_str(
                "Keystore passwords don't have the same length as keystore paths.",
            ),
            WalletError::KeystoreDecryptError => String::from_str("Failed to decrypt keystore."),
            WalletError::MnemonicDerivationError => String::from_str(
                "Failed to derive wallet from mnemonic.",
            ),
            WalletError::PromptAborted => String::from_str("Interactive prompt was aborted."),
            WalletError::MultiPathUnsupported => String::from_str(
                "Ledger only supports one signer.",
            ),
            WalletError::DeviceUnavailable => String::from_str("Hardware device not available."),
            WalletError::ChainQueryError => String::from_str("Failed to query the chain id."),
            WalletError::UnresolvedAddresses { remaining, unused } => {
                let head = if remaining.contains(default_sender_address()) {
                    String::from_str(
                        "\nYou seem to be using the default sender. Be sure to set your own sender.\n",
                    ).concat("No associated wallet for addresses:")
                } else {
                    String::from_str("No associated wallet for addresses:")
                };
                let s = head.concat(render_address_list(&remaining.addrs).as_str());
                let s = s.concat(". Unlocked wallets:");
                let s = s.concat(render_address_list(unused).as_str());
                proof {
                    assert(s@ =~= self.message_spec());
                }
                s
            },
        }
    }
}

/// The rendered `UnresolvedAddresses` diagnostic opens with the
/// default-sender warning exactly when the placeholder sender address is
/// among the unresolved targets.
pub proof fn lemma_warning_iff_default_sender(remaining: AddressSet, unused: Vec<Address>)
    ensures
        has_warning_prefix(
            (WalletError::UnresolvedAddresses { remaining, unused }).message_spec(),
        ) == remaining@.contains(default_sender()),
{
    reveal_strlit("\nYou seem to be using the default sender. Be sure to set your own sender.\n");
    reveal_strlit("No associated wallet for addresses:");
    let m = (WalletError::UnresolvedAddresses { remaining, unused }).message_spec();
    if remaining@.contains(default_sender()) {
        assert(m.subrange(0, warning_text().len() as int) =~= warning_text());
    } else {
        if has_warning_prefix(m) {
            assert(m.subrange(0, warning_text().len() as int)[0] == warning_text()[0]);
            assert(m[0] == unresolved_text()[0]);
            assert(m[0] == 'N');
            assert(warning_text()[0] == '\n');
        }
    }
}

} // verus!
