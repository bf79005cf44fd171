//! The distinct error descriptions of a scan, kept for diagnosis.

use vstd::prelude::*;

verus! {

/// The descriptions after `text` is offered to a digest that holds `entries`
/// and takes no more than `limit`: a new text is appended while there is
/// room; a text already held, or one that finds the digest full, is dropped.
pub open spec fn digest_after(entries: Seq<Seq<char>>, limit: nat, text: Seq<char>) -> Seq<
    Seq<char>,
> {
    if entries.len() < limit && !entries.contains(text) {
        entries.push(text)
    } else {
        entries
    }
}

/// Offering a text keeps the entries distinct and within the limit.
pub proof fn lemma_digest_after_keeps_order(entries: Seq<Seq<char>>, limit: nat, text: Seq<char>)
    requires
        entries.no_duplicates(),
        entries.len() <= limit,
    ensures
        digest_after(entries, limit, text).no_duplicates(),
        digest_after(entries, limit, text).len() <= limit,
        forall|i: int| 0 <= i < entries.len() ==> digest_after(entries, limit, text)[i] == entries[i],
{
}

/// For each host of a scan the digest takes this many descriptions.
pub const ERRORS_PER_HOST: u64 = 1000;

/// The number of descriptions that the digest of a scan of `hosts` addresses
/// takes at most.
pub open spec fn digest_limit(hosts: nat) -> nat {
    hosts * (ERRORS_PER_HOST as nat)
}

/// A set of error descriptions with a limit on its size.
#[derive(Debug)]
pub struct ErrorDigest {
    entries: Vec<String>,
    hosts: usize,
}

impl ErrorDigest {
    /// The descriptions held, in the order in which they came.
    pub closed spec fn entries(&self) -> Seq<Seq<char>> {
        Seq::new(self.entries.len() as nat, |i: int| self.entries[i]@)
    }

    /// The number of descriptions that the digest takes at most.
    pub closed spec fn limit(&self) -> nat {
        digest_limit(self.hosts as nat)
    }

    /// No description is held twice, and the limit is kept.
    pub open spec fn wf(&self) -> bool {
        &&& self.entries().no_duplicates()
        &&& self.entries().len() <= self.limit()
    }

    /// An empty digest for a scan of `hosts` addresses.
    pub fn new(hosts: usize) -> (digest: ErrorDigest)
        ensures
            digest.wf(),
            digest.entries() == Seq::<Seq<char>>::empty(),
            digest.limit() == digest_limit(hosts as nat),
    {
        let digest = ErrorDigest { entries: Vec::new(), hosts };
        assert(digest.entries() =~= Seq::<Seq<char>>::empty());
        digest
    }

    /// The number of descriptions held.
    pub fn len(&self) -> (n: usize)
        ensures
            n == self.entries().len(),
    {
        self.entries.len()
    }

    /// Whether `text` is one of the descriptions held.
    pub fn contains(&self, text: &String) -> (found: bool)
        ensures
            found == self.entries().contains(text@),
    {
        let mut i: usize = 0;
        while i < self.entries.len()
            invariant
                i <= self.entries.len(),
                forall|j: int| 0 <= j < i ==> self.entries()[j] != text@,
            decreases self.entries.len() - i,
        {
            if self.entries[i] == *text {
                assert(self.entries()[i as int] == text@);
                return true;
            }
            i += 1;
        }
        false
    }

    /// Offers a description to the digest, and tells whether it was taken.
    pub fn insert(&mut self, text: String) -> (added: bool)
        requires
            old(self).wf(),
        ensures
            final(self).wf(),
            final(self).limit() == old(self).limit(),
            final(self).entries() == digest_after(old(self).entries(), old(self).limit(), text@),
            added == (final(self).entries().len() == old(self).entries().len() + 1),
    {
        let room = (self.entries.len() as u128) < (self.hosts as u128) * (ERRORS_PER_HOST as u128);
        if !room || self.contains(&text) {
            return false;
        }
        let ghost before = self.entries();
        self.entries.push(text);
        assert(self.entries() =~= before.push(text@));
        true
    }

    /// The descriptions held, in the order in which they came.
    pub fn into_entries(self) -> (entries: Vec<String>)
        ensures
            entries.len() == self.entries().len(),
            forall|i: int| 0 <= i < entries.len() ==> entries[i]@ == self.entries()[i],
    {
        self.entries
    }
}

} // verus!
