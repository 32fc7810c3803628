//! The set of allowlisted domains.
use vstd::prelude::*;
use crate::text::{same_text, string_texts};

verus! {

/// A set of domains that are never reported as suspicious.
/// Each domain is held once, in the order it was first inserted.
pub struct Allowlist {
    entries: Vec<String>,
}

impl Allowlist {
    #[verifier::type_invariant]
    spec fn entries_distinct(self) -> bool {
        string_texts(self.entries@).no_duplicates()
    }

    /// The domains, in insertion order.
    pub closed spec fn entry_texts(self) -> Seq<Seq<char>> {
        string_texts(self.entries@)
    }

    /// An empty allowlist.
    pub fn new() -> (a: Allowlist)
        ensures
            a@ == Set::<Seq<char>>::empty(),
    {
        let a = Allowlist { entries: Vec::new() };
        assert(a@ =~= Set::<Seq<char>>::empty());
        a
    }

    /// Whether `domain` is in the allowlist.
    pub fn contains(&self, domain: &str) -> (b: bool)
        ensures
            b == self@.contains(domain@),
    {
        let mut i: usize = 0;
        while i < self.entries.len()
            invariant
                i <= self.entries.len(),
                forall|j: int| 0 <= j < i ==> self.entries@[j]@ != domain@,
            decreases self.entries.len() - i,
        {
            if same_text(self.entries[i].as_str(), domain) {
                assert(self.entry_texts()[i as int] == domain@);
                return true;
            }
            i = i + 1;
        }
        assert(!self.entry_texts().contains(domain@)) by {
            if self.entry_texts().contains(domain@) {
                let j = choose|j: int| 0 <= j < self.entry_texts().len() && self.entry_texts()[j] == domain@;
                assert(self.entries@[j]@ == domain@);
            }
        }
        false
    }

    /// Adds `domain`; returns whether it was not there before.
    pub fn insert(&mut self, domain: String) -> (added: bool)
        ensures
            final(self)@ == old(self)@.insert(domain@),
            added == !old(self)@.contains(domain@),
    {
        proof {
            use_type_invariant(&*self);
        }
        if self.contains(domain.as_str()) {
            assert(self@.insert(domain@) =~= self@);
            return false;
        }
        let ghost before = self.entry_texts();
        assert(!before.contains(domain@));
        let mut entries: Vec<String> = Vec::new();
        std::mem::swap(&mut entries, &mut self.entries);
        assert(string_texts(entries@) == before);
        entries.push(domain);
        proof {
            let after = string_texts(entries@);
            assert(after =~= before.push(domain@));
            assert forall|i: int, j: int|
                0 <= i < after.len() && 0 <= j < after.len() && i != j implies after[i] != after[j] by {
                if i < before.len() && j < before.len() {
                    assert(after[i] == before[i] && after[j] == before[j]);
                } else if i == before.len() {
                    assert(after[j] == before[j]);
                } else {
                    assert(after[i] == before[i]);
                }
            }
            assert(before.push(domain@) == before + seq![domain@]);
            Seq::lemma_to_set_insert_commutes(before, domain@);
        }
        self.entries = entries;
        true
    }

    /// Number of domains in the allowlist.
    pub fn len(&self) -> (n: usize)
        ensures
            n == self@.len(),
            self@.finite(),
    {
        proof {
            use_type_invariant(self);
            self.entry_texts().unique_seq_to_set();
            vstd::seq_lib::seq_to_set_is_finite(self.entry_texts());
        }
        self.entries.len()
    }
}

impl View for Allowlist {
    type V = Set<Seq<char>>;

    closed spec fn view(&self) -> Set<Seq<char>> {
        self.entry_texts().to_set()
    }
}

} // verus!
