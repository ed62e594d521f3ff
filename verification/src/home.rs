use vstd::prelude::*;
use vstd::slice::slice_to_vec;
use crate::credential::{spec_hex, Credential};
use crate::credential::{derive_address, to_hex};
use crate::errors::Error;
use crate::fsmodel::FileTree;
use crate::paths::{dec_digits, path_join, spec_join, str_eq, u64_to_string};
use crate::paths::{lemma_dec_digits_are_digits, lemma_join_parts};

verus! {

/// The operator's answer to the rotation prompt. Only the exact tokens
/// `y` and `n` are recognized; anything else is unrecognized and the
/// caller treats it as a decline after emitting a guidance message,
/// without re-prompting.
#[derive(Clone, Copy, Debug, PartialEq, Eq, Structural)]
pub enum Confirmation {
    Approved,
    Declined,
    Unrecognized,
}

/// How a rotation ended when it did not fail: with a fresh credential
/// installed, or with the operator declining and everything left as it
/// was. Declining is a valid terminal outcome, not an error.
pub enum RotateOutcome {
    Rotated(Credential),
    Declined,
}

/// The commonly used paths of a credential home, every one of them a
/// subpath of `<home>/.shuffle`, computed from the root directory alone
/// and never cached.
pub struct Home {
    pub shuffle_path: String,
    pub root_key_path: String,
    pub node_config_path: String,
    pub account_dir_path: String,
    pub latest_dir_path: String,
    pub latest_key_path: String,
    pub latest_address_path: String,
}

impl Home {
    /// Every field is the documented subpath below `home_dir/.shuffle`.
    pub open spec fn wf_for(&self, home_dir: Seq<char>) -> bool {
        &&& self.shuffle_path@ == spec_join(home_dir, ".shuffle"@)
        &&& self.root_key_path@ == spec_join(home_dir, ".shuffle/nodeconfig/mint.key"@)
        &&& self.node_config_path@ == spec_join(home_dir, ".shuffle/nodeconfig/0/node.yaml"@)
        &&& self.account_dir_path@ == spec_join(home_dir, ".shuffle/accounts"@)
        &&& self.latest_dir_path@ == spec_join(home_dir, ".shuffle/accounts/latest"@)
        &&& self.latest_key_path@ == spec_join(home_dir, ".shuffle/accounts/latest/dev.key"@)
        &&& self.latest_address_path@ == spec_join(home_dir, ".shuffle/accounts/latest/address"@)
    }

    /// The paths were all computed from one root directory.
    pub open spec fn rooted(&self) -> bool {
        exists|home_dir: Seq<char>| self.wf_for(home_dir)
    }

    /// Resolves the on-disk layout relative to `home_dir`. Pure: no
    /// filesystem access, no check that anything exists.
    pub fn new(home_dir: &str) -> (r: Result<Home, Error>)
        ensures
            r matches Ok(h) && h.wf_for(home_dir@),
    {
        let h = Home {
            shuffle_path: path_join(home_dir, ".shuffle"),
            root_key_path: path_join(home_dir, ".shuffle/nodeconfig/mint.key"),
            node_config_path: path_join(home_dir, ".shuffle/nodeconfig/0/node.yaml"),
            account_dir_path: path_join(home_dir, ".shuffle/accounts"),
            latest_dir_path: path_join(home_dir, ".shuffle/accounts/latest"),
            latest_key_path: path_join(home_dir, ".shuffle/accounts/latest/dev.key"),
            latest_address_path: path_join(home_dir, ".shuffle/accounts/latest/address"),
        };
        Ok(h)
    }

    /// Creates the archive snapshot directory named by `time_secs` under
    /// the accounts directory. A colliding snapshot (two rotations within
    /// the same second) is a fatal I/O error, never an overwrite.
    pub fn create_archive_dir(&mut self, tree: &mut FileTree, time_secs: u64) -> (r: Result<
        String,
        Error,
    >)
        ensures
            *final(self) == *old(self),
            ({
                let ad = spec_join(old(self).account_dir_path@, dec_digits(time_secs as nat));
                &&& (r is Ok) == !old(tree).has_dir(ad)
                &&& r matches Ok(p) ==> p@ == ad && (forall|k: Seq<char>| #[trigger]
                    final(tree).has_dir(k) == (k == ad || old(tree).has_dir(k))) && (forall|
                    k: Seq<char>,
                | #[trigger] final(tree).file_at(k) == old(tree).file_at(k))
                &&& r is Err ==> r == Err::<String, Error>(Error::IoError) && *final(tree) == *old(
                    tree,
                )
            }),
    {
        let name = u64_to_string(time_secs);
        let archived_dir = path_join(self.account_dir_path.as_str(), name.as_str());
        match tree.create_dir(archived_dir.as_str()) {
            Ok(_) => Ok(archived_dir),
            Err(e) => Err(e),
        }
    }

    /// Copies the current key file into the snapshot directory, verbatim,
    /// leaving the source in place.
    pub fn archive_old_key(&mut self, tree: &mut FileTree, archived_dir: &str) -> (r: Result<
        (),
        Error,
    >)
        ensures
            *final(self) == *old(self),
            ({
                let dst = spec_join(archived_dir@, "dev.key"@);
                let src = old(self).latest_key_path@;
                &&& (r is Ok) == (old(tree).file_at(src) is Some)
                &&& r is Ok ==> forall|k: Seq<char>| #[trigger]
                    final(tree).file_at(k) == (if k == dst {
                        old(tree).file_at(src)
                    } else {
                        old(tree).file_at(k)
                    })
                &&& r is Err ==> r == Err::<(), Error>(Error::IoError) && *final(tree) == *old(tree)
                &&& forall|k: Seq<char>| #[trigger] final(tree).has_dir(k) == old(tree).has_dir(k)
            }),
    {
        let dst = path_join(archived_dir, "dev.key");
        tree.copy_file(self.latest_key_path.as_str(), dst.as_str())
    }

    /// Copies the current address file into the snapshot directory,
    /// verbatim, leaving the source in place.
    pub fn archive_old_address(&mut self, tree: &mut FileTree, archived_dir: &str) -> (r: Result<
        (),
        Error,
    >)
        ensures
            *final(self) == *old(self),
            ({
                let dst = spec_join(archived_dir@, "address"@);
                let src = old(self).latest_address_path@;
                &&& (r is Ok) == (old(tree).file_at(src) is Some)
                &&& r is Ok ==> forall|k: Seq<char>| #[trigger]
                    final(tree).file_at(k) == (if k == dst {
                        old(tree).file_at(src)
                    } else {
                        old(tree).file_at(k)
                    })
                &&& r is Err ==> r == Err::<(), Error>(Error::IoError) && *final(tree) == *old(tree)
                &&& forall|k: Seq<char>| #[trigger] final(tree).has_dir(k) == old(tree).has_dir(k)
            }),
    {
        let dst = path_join(archived_dir, "address");
        tree.copy_file(self.latest_address_path.as_str(), dst.as_str())
    }

    /// Ensures the accounts directory exists; a pre-existing directory is
    /// not an error.
    pub fn generate_shuffle_accounts_dir(&mut self, tree: &mut FileTree) -> (r: Result<(), Error>)
        ensures
            *final(self) == *old(self),
            r is Ok,
            forall|k: Seq<char>| #[trigger]
                final(tree).has_dir(k) == (k == old(self).account_dir_path@ || old(tree).has_dir(
                    k,
                )),
            forall|k: Seq<char>| #[trigger] final(tree).file_at(k) == old(tree).file_at(k),
    {
        if !tree.is_dir(self.account_dir_path.as_str()) {
            tree.create_dir(self.account_dir_path.as_str())
        } else {
            Ok(())
        }
    }

    /// Ensures the current-credential directory exists; a pre-existing
    /// directory is not an error.
    pub fn generate_shuffle_latest_dir(&mut self, tree: &mut FileTree) -> (r: Result<(), Error>)
        ensures
            *final(self) == *old(self),
            r is Ok,
            forall|k: Seq<char>| #[trigger]
                final(tree).has_dir(k) == (k == old(self).latest_dir_path@ || old(tree).has_dir(k)),
            forall|k: Seq<char>| #[trigger] final(tree).file_at(k) == old(tree).file_at(k),
    {
        if !tree.is_dir(self.latest_dir_path.as_str()) {
            tree.create_dir(self.latest_dir_path.as_str())
        } else {
            Ok(())
        }
    }

    /// Generates fresh private-key material and persists it over the
    /// current-key path, returning the key bytes.
    pub fn generate_key_file(&mut self, tree: &mut FileTree) -> (r: Result<Vec<u8>, Error>)
        ensures
            *final(self) == *old(self),
            r is Ok,
            r matches Ok(sk) ==> sk@.len() == 32 && (forall|k: Seq<char>| #[trigger]
                final(tree).file_at(k) == (if k == old(self).latest_key_path@ {
                    Some(sk@)
                } else {
                    old(tree).file_at(k)
                })),
            forall|k: Seq<char>| #[trigger] final(tree).has_dir(k) == old(tree).has_dir(k),
    {
        let sk = crate::credential::fresh_key_bytes();
        let stored = slice_to_vec(sk.as_slice());
        tree.write_file(self.latest_key_path.as_str(), stored);
        Ok(sk)
    }

    /// Derives the address of `public_key` and persists its hex text over
    /// the current-address path.
    pub fn generate_address_file(&mut self, tree: &mut FileTree, public_key: &Vec<u8>) -> (r:
        Result<(), Error>)
        ensures
            *final(self) == *old(self),
            r is Ok,
            forall|k: Seq<char>| #[trigger]
                final(tree).file_at(k) == (if k == old(self).latest_address_path@ {
                    Some(spec_hex(crate::credential::spec_derive_address(public_key@)))
                } else {
                    old(tree).file_at(k)
                }),
            forall|k: Seq<char>| #[trigger] final(tree).has_dir(k) == old(tree).has_dir(k),
    {
        let address = derive_address(public_key);
        let text = to_hex(&address);
        tree.write_file(self.latest_address_path.as_str(), text);
        Ok(())
    }

    /// Classifies the operator's answer to the rotation prompt. Exactly
    /// `y` approves and exactly `n` declines; anything else is
    /// unrecognized (and the workflow treats it as a decline).
    pub fn confirm_user_decision(&mut self, response: &str) -> (r: Confirmation)
        ensures
            *final(self) == *old(self),
            r == Confirmation::Approved <==> response@ == "y"@,
            r == Confirmation::Declined <==> (response@ == "n"@ && response@ != "y"@),
    {
        if str_eq(response, "y") {
            Confirmation::Approved
        } else if str_eq(response, "n") {
            Confirmation::Declined
        } else {
            Confirmation::Unrecognized
        }
    }

    /// The rotation workflow. With no current credential it generates and
    /// installs a fresh one. With one present, the operator's `response`
    /// decides: anything but `y` declines and leaves every file untouched;
    /// `y` archives the current key and address bytes verbatim into a
    /// snapshot directory named by `time_secs`, then generates and installs
    /// a fresh credential over the current paths. A snapshot-name collision
    /// is a fatal I/O error before anything is copied; a missing current
    /// address file fails after the key copy, and the snapshot already
    /// created is not rolled back.
    pub fn rotate(&mut self, tree: &mut FileTree, time_secs: u64, response: &str) -> (r: Result<
        RotateOutcome,
        Error,
    >)
        requires
            old(self).rooted(),
        ensures
            *final(self) == *old(self),
            ({
                let lk = old(self).latest_key_path@;
                let la = old(self).latest_address_path@;
                let ad = spec_join(old(self).account_dir_path@, dec_digits(time_secs as nat));
                let ak = spec_join(ad, "dev.key"@);
                let aa = spec_join(ad, "address"@);
                let had = old(tree).file_at(lk) is Some;
                &&& !had ==> ({
                    &&& r matches Ok(RotateOutcome::Rotated(c))
                    &&& r matches Ok(RotateOutcome::Rotated(c)) ==> ({
                        &&& c.wf()
                        &&& final(tree).file_at(lk) == Some(c.private_key@)
                        &&& final(tree).file_at(la) == Some(spec_hex(c.address@))
                        &&& forall|k: Seq<char>|
                            k != lk && k != la ==> #[trigger] final(tree).file_at(k) == old(tree).file_at(k)
                        &&& forall|k: Seq<char>| #[trigger]
                            final(tree).has_dir(k) == (k == old(self).account_dir_path@
                                || k == old(self).latest_dir_path@ || old(tree).has_dir(k))
                    })
                })
                &&& had && response@ != "y"@ ==> ({
                    &&& r matches Ok(RotateOutcome::Declined)
                    &&& *final(tree) == *old(tree)
                })
                &&& had && response@ == "y"@ && old(tree).has_dir(ad) ==> ({
                    &&& r == Err::<RotateOutcome, Error>(Error::IoError)
                    &&& *final(tree) == *old(tree)
                })
                &&& had && response@ == "y"@ && !old(tree).has_dir(ad) && old(tree).file_at(la)
                    is None ==> ({
                    &&& r == Err::<RotateOutcome, Error>(Error::IoError)
                    &&& final(tree).file_at(ak) == old(tree).file_at(lk)
                    &&& forall|k: Seq<char>|
                        k != ak ==> #[trigger] final(tree).file_at(k) == old(tree).file_at(k)
                    &&& forall|k: Seq<char>| #[trigger]
                        final(tree).has_dir(k) == (k == ad || old(tree).has_dir(k))
                })
                &&& had && response@ == "y"@ && !old(tree).has_dir(ad) && old(tree).file_at(la)
                    is Some ==> ({
                    &&& r matches Ok(RotateOutcome::Rotated(c))
                    &&& r matches Ok(RotateOutcome::Rotated(c)) ==> ({
                        &&& c.wf()
                        &&& final(tree).file_at(ak) == old(tree).file_at(lk)
                        &&& final(tree).file_at(aa) == old(tree).file_at(la)
                        &&& final(tree).file_at(lk) == Some(c.private_key@)
                        &&& final(tree).file_at(la) == Some(spec_hex(c.address@))
                        &&& forall|k: Seq<char>|
                            k != lk && k != la && k != ak && k != aa ==> #[trigger] final(tree).file_at(
                                k,
                            ) == old(tree).file_at(k)
                        &&& forall|k: Seq<char>| #[trigger]
                            final(tree).has_dir(k) == (k == ad || old(tree).has_dir(k))
                    })
                })
            }),
    {
        proof {
            lemma_rotation_paths_distinct(*old(self), time_secs as nat);
        }
        if !tree.is_file(self.latest_key_path.as_str()) {
            self.generate_shuffle_accounts_dir(tree)?;
            self.generate_shuffle_latest_dir(tree)?;
            let sk = self.generate_key_file(tree)?;
            let c = Credential::from_private_key(sk);
            self.generate_address_file(tree, &c.public_key)?;
            Ok(RotateOutcome::Rotated(c))
        } else {
            match self.confirm_user_decision(response) {
                Confirmation::Approved => {
                    let archived_dir = self.create_archive_dir(tree, time_secs)?;
                    self.archive_old_key(tree, archived_dir.as_str())?;
                    self.archive_old_address(tree, archived_dir.as_str())?;
                    let sk = self.generate_key_file(tree)?;
                    let c = Credential::from_private_key(sk);
                    self.generate_address_file(tree, &c.public_key)?;
                    Ok(RotateOutcome::Rotated(c))
                },
                _ => Ok(RotateOutcome::Declined),
            }
        }
    }
}

/// The four files a confirmed rotation touches are four distinct paths:
/// the two current files and their two snapshot copies. Rests on the
/// snapshot directory being named by decimal digits, which no fixed
/// layout component consists of.
pub proof fn lemma_rotation_paths_distinct(h: Home, time: nat)
    requires
        h.rooted(),
    ensures
        ({
            let ad = spec_join(h.account_dir_path@, dec_digits(time));
            let ak = spec_join(ad, "dev.key"@);
            let aa = spec_join(ad, "address"@);
            let lk = h.latest_key_path@;
            let la = h.latest_address_path@;
            &&& lk != la
            &&& ak != lk
            &&& ak != aa
            &&& ak != la
            &&& aa != lk
            &&& aa != la
        }),
{
    let hd = choose|home_dir: Seq<char>| h.wf_for(home_dir);
    let ad = spec_join(h.account_dir_path@, dec_digits(time));
    let ak = spec_join(ad, "dev.key"@);
    let aa = spec_join(ad, "address"@);
    let lk = h.latest_key_path@;
    let la = h.latest_address_path@;
    reveal_strlit(".shuffle/accounts/latest/dev.key");
    reveal_strlit(".shuffle/accounts/latest/address");
    reveal_strlit("dev.key");
    reveal_strlit("address");
    let rk = ".shuffle/accounts/latest/dev.key"@;
    let ra = ".shuffle/accounts/latest/address"@;
    lemma_join_parts(hd, rk);
    lemma_join_parts(hd, ra);
    lemma_dec_digits_are_digits(time);
    lemma_join_parts(h.account_dir_path@, dec_digits(time));
    lemma_join_parts(ad, "dev.key"@);
    lemma_join_parts(ad, "address"@);
    // the last character separates a key file from an address file
    assert(lk[lk.len() - 1] == rk[31]);
    assert(la[la.len() - 1] == ra[31]);
    assert(ak[ak.len() - 1] == "dev.key"@[6]);
    assert(aa[aa.len() - 1] == "address"@[6]);
    assert(rk[31] == 'y' && ra[31] == 's');
    // nine places before the end, a snapshot path shows a digit of the
    // timestamp where a current path shows a letter of `latest`
    let dec = dec_digits(time);
    assert(ad[ad.len() - 1] == dec[dec.len() - 1]);
    assert(48 <= ad[ad.len() - 1] as int <= 57);
    assert(ad[ad.len() - 1] != '/');
    assert(ak.len() == ad.len() + 8);
    assert(aa.len() == ad.len() + 8);
    assert(ak[ad.len() - 1] == ad[ad.len() - 1]);
    assert(aa[ad.len() - 1] == ad[ad.len() - 1]);
    assert(lk[lk.len() - 9] == rk[23]);
    assert(la[la.len() - 9] == ra[23]);
    assert(rk[23] == 't' && ra[23] == 't');
    if ak == lk {
        assert(ak[ak.len() - 9] == lk[lk.len() - 9]);
        assert(false);
    }
    if aa == la {
        assert(aa[aa.len() - 9] == la[la.len() - 9]);
        assert(false);
    }
    if aa == lk {
        assert(aa[aa.len() - 1] == lk[lk.len() - 1]);
        assert(false);
    }
    if ak == la {
        assert(ak[ak.len() - 1] == la[la.len() - 1]);
        assert(false);
    }
    if ak == aa {
        assert(ak[ak.len() - 1] == aa[aa.len() - 1]);
        assert(false);
    }
    if lk == la {
        assert(lk[lk.len() - 1] == la[la.len() - 1]);
        assert(false);
    }
}

} // verus!
