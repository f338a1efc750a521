use vstd::prelude::*;

verus! {

/// What a successful key validation hands back: who owns the key and the
/// rate ceiling the backing store enforces for it.
pub struct KeyInfo {
    pub owner: String,
    pub rate_limit: u64,
}

/// One key's record in the mock backing store.
pub struct KeyEntry {
    pub owner: String,
    pub rate_limit: u64,
    pub active: bool,
    pub error: Option<String>,
}

/// Model of a key's record.
pub struct KeyEntryModel {
    pub owner: Seq<char>,
    pub rate_limit: u64,
    pub active: bool,
    pub error: Option<Seq<char>>,
}

impl View for KeyEntry {
    type V = KeyEntryModel;

    open spec fn view(&self) -> KeyEntryModel {
        KeyEntryModel {
            owner: self.owner@,
            rate_limit: self.rate_limit,
            active: self.active,
            error: match self.error {
                Some(e) => Some(e@),
                None => None,
            },
        }
    }
}

pub open spec fn entry_lookup_from(keys: Seq<(String, KeyEntry)>, k: Seq<char>, i: int) -> Option<KeyEntryModel>
    decreases keys.len() - i,
{
    if i < 0 || i >= keys.len() {
        None
    } else if keys[i].0@ == k {
        Some(keys[i].1@)
    } else {
        entry_lookup_from(keys, k, i + 1)
    }
}

pub open spec fn count_lookup_from(counts: Seq<(String, u64)>, k: Seq<char>, i: int) -> u64
    decreases counts.len() - i,
{
    if i < 0 || i >= counts.len() {
        0
    } else if counts[i].0@ == k {
        counts[i].1
    } else {
        count_lookup_from(counts, k, i + 1)
    }
}

pub open spec fn in_string_list(l: Seq<String>, k: Seq<char>) -> bool {
    exists|i: int| 0 <= i < l.len() && (#[trigger] l[i])@ == k
}

/// An in-memory KeyStore with the knobs a backing store must offer for
/// testing: per-key deactivation, a rate-limited list, injected store
/// faults, and per-key call counting.
pub struct MockKeyStore {
    keys: Vec<(String, KeyEntry)>,
    /// Keys currently counted as over their rate limit.
    pub rate_limited_keys: Vec<String>,
    counts: Vec<(String, u64)>,
}

impl MockKeyStore {
    /// The record stored under a key, if any.
    pub closed spec fn key_model(&self, k: Seq<char>) -> Option<KeyEntryModel> {
        entry_lookup_from(self.keys@, k, 0)
    }

    /// How many times `validate_key` ran for a key.
    pub closed spec fn count_of(&self, k: Seq<char>) -> u64 {
        count_lookup_from(self.counts@, k, 0)
    }

    /// Whether the key is currently flagged over its rate limit.
    pub closed spec fn rate_limited(&self, k: Seq<char>) -> bool {
        in_string_list(self.rate_limited_keys@, k)
    }

    /// An empty store: no keys, no counts, nothing rate limited.
    pub fn new() -> (r: Self)
        ensures
            forall|k: Seq<char>| r.key_model(k) is None,
            forall|k: Seq<char>| r.count_of(k) == 0,
            forall|k: Seq<char>| !r.rate_limited(k),
    {
        MockKeyStore { keys: Vec::new(), rate_limited_keys: Vec::new(), counts: Vec::new() }
    }

    fn find_key_index(&self, key: &String) -> (r: Option<usize>)
        ensures
            match r {
                Some(i) => i < self.keys@.len() && self.keys@[i as int].0@ == key@
                    && forall|j: int| 0 <= j < i ==> self.keys@[j].0@ != key@,
                None => forall|j: int| 0 <= j < self.keys@.len() ==> self.keys@[j].0@ != key@,
            },
    {
        let mut i: usize = 0;
        while i < self.keys.len()
            invariant
                i <= self.keys@.len(),
                forall|j: int| 0 <= j < i ==> self.keys@[j].0@ != key@,
            decreases self.keys@.len() - i,
        {
            if self.keys[i].0 == *key {
                return Some(i);
            }
            i = i + 1;
        }
        None
    }

    /// Registers (or replaces) an active key with its owner and rate limit.
    pub fn add_key(&mut self, key: &String, owner: &String, rate_limit: u64)
        ensures
            final(self).key_model(key@) == Some(KeyEntryModel {
                owner: owner@,
                rate_limit,
                active: true,
                error: None,
            }),
            forall|k: Seq<char>| k != key@ ==> final(self).key_model(k) == old(self).key_model(k),
            forall|k: Seq<char>| final(self).count_of(k) == old(self).count_of(k),
            forall|k: Seq<char>| final(self).rate_limited(k) == old(self).rate_limited(k),
    {
        let entry = KeyEntry { owner: owner.clone(), rate_limit, active: true, error: None };
        match self.find_key_index(key) {
            Some(i) => {
                let ghost before = self.keys@;
                let slot = &mut self.keys[i];
                slot.1 = entry;
                proof {
                    lemma_entry_lookup_replace(before, self.keys@, key@, i as int, 0);
                    lemma_entry_lookup_other(before, self.keys@, i as int, 0);
                }
            }
            None => {
                let ghost before = self.keys@;
                self.keys.push((key.clone(), entry));
                proof {
                    lemma_entry_lookup_push(before, self.keys@, key@, 0);
                }
            }
        }
    }

    /// Deactivates a key; validation then answers `Ok(None)` for it.
    pub fn set_inactive(&mut self, key: &String)
        ensures
            match old(self).key_model(key@) {
                Some(e) => final(self).key_model(key@) == Some(KeyEntryModel { active: false, ..e }),
                None => final(self).key_model(key@) is None,
            },
            forall|k: Seq<char>| k != key@ ==> final(self).key_model(k) == old(self).key_model(k),
            forall|k: Seq<char>| final(self).count_of(k) == old(self).count_of(k),
            forall|k: Seq<char>| final(self).rate_limited(k) == old(self).rate_limited(k),
    {
        match self.find_key_index(key) {
            Some(i) => {
                let ghost before = self.keys@;
                let owner = self.keys[i].1.owner.clone();
                let rate_limit = self.keys[i].1.rate_limit;
                let error = match &self.keys[i].1.error {
                    Some(e) => Some(e.clone()),
                    None => None,
                };
                let slot = &mut self.keys[i];
                slot.1 = KeyEntry { owner, rate_limit, active: false, error };
                proof {
                    lemma_entry_lookup_found(before, key@, i as int, 0);
                    lemma_entry_lookup_replace(before, self.keys@, key@, i as int, 0);
                    lemma_entry_lookup_other(before, self.keys@, i as int, 0);
                }
            }
            None => {
                proof {
                    lemma_entry_lookup_absent(self.keys@, key@, 0);
                }
            }
        }
    }

    /// Injects a store fault for a key: validation then fails with this message.
    pub fn set_error(&mut self, key: &String, message: &String)
        ensures
            match old(self).key_model(key@) {
                Some(e) => final(self).key_model(key@) == Some(KeyEntryModel { error: Some(message@), ..e }),
                None => final(self).key_model(key@) is None,
            },
            forall|k: Seq<char>| k != key@ ==> final(self).key_model(k) == old(self).key_model(k),
            forall|k: Seq<char>| final(self).count_of(k) == old(self).count_of(k),
            forall|k: Seq<char>| final(self).rate_limited(k) == old(self).rate_limited(k),
    {
        match self.find_key_index(key) {
            Some(i) => {
                let ghost before = self.keys@;
                let owner = self.keys[i].1.owner.clone();
                let rate_limit = self.keys[i].1.rate_limit;
                let active = self.keys[i].1.active;
                let slot = &mut self.keys[i];
                slot.1 = KeyEntry { owner, rate_limit, active, error: Some(message.clone()) };
                proof {
                    lemma_entry_lookup_found(before, key@, i as int, 0);
                    lemma_entry_lookup_replace(before, self.keys@, key@, i as int, 0);
                    lemma_entry_lookup_other(before, self.keys@, i as int, 0);
                }
            }
            None => {
                proof {
                    lemma_entry_lookup_absent(self.keys@, key@, 0);
                }
            }
        }
    }

    /// How many times `validate_key` ran for this key.
    pub fn get_call_count(&self, key: &String) -> (r: u64)
        ensures
            r == self.count_of(key@),
    {
        let mut i: usize = 0;
        while i < self.counts.len()
            invariant
                i <= self.counts@.len(),
                count_lookup_from(self.counts@, key@, 0) == count_lookup_from(self.counts@, key@, i as int),
            decreases self.counts@.len() - i,
        {
            if self.counts[i].0 == *key {
                return self.counts[i].1;
            }
            i = i + 1;
        }
        0
    }

    fn bump_count(&mut self, key: &String)
        ensures
            final(self).count_of(key@) == saturating_inc64(old(self).count_of(key@)),
            forall|k: Seq<char>| k != key@ ==> final(self).count_of(k) == old(self).count_of(k),
            final(self).keys@ == old(self).keys@,
            forall|k: Seq<char>| final(self).rate_limited(k) == old(self).rate_limited(k),
    {
        let mut i: usize = 0;
        while i < self.counts.len()
            invariant
                i <= self.counts@.len(),
                forall|j: int| 0 <= j < i ==> self.counts@[j].0@ != key@,
                self.keys@ == old(self).keys@,
                self.rate_limited_keys@ == old(self).rate_limited_keys@,
                self.counts@ == old(self).counts@,
            decreases self.counts@.len() - i,
        {
            if self.counts[i].0 == *key {
                let ghost before = self.counts@;
                let v = self.counts[i].1;
                let nv = if v < u64::MAX { v + 1 } else { u64::MAX };
                let slot = &mut self.counts[i];
                slot.1 = nv;
                proof {
                    lemma_count_lookup_replace(before, self.counts@, key@, i as int, 0);
                    lemma_count_lookup_other(before, self.counts@, i as int, 0);
                }
                return;
            }
            i = i + 1;
        }
        let ghost before = self.counts@;
        self.counts.push((key.clone(), 1));
        proof {
            lemma_count_lookup_push(before, self.counts@, key@, 0);
        }
    }

    /// Validates an API key against the store.
    ///
    /// `Ok(Some(info))`: the key is active and within its rate limit.
    /// `Ok(None)`: the key is unknown or deactivated.
    /// `Err(msg)`: an injected store fault (its own message) or, for a key
    /// flagged over its limit, exactly "Rate limit exceeded".
    /// Every call counts against the key, whatever the outcome; a store
    /// fault takes precedence over deactivation and rate limiting.
    pub fn validate_key(&mut self, key: &String) -> (r: Result<Option<KeyInfo>, String>)
        ensures
            final(self).count_of(key@) == saturating_inc64(old(self).count_of(key@)),
            forall|k: Seq<char>| k != key@ ==> final(self).count_of(k) == old(self).count_of(k),
            forall|k: Seq<char>| final(self).key_model(k) == old(self).key_model(k),
            forall|k: Seq<char>| final(self).rate_limited(k) == old(self).rate_limited(k),
            match old(self).key_model(key@) {
                None => r == Ok::<Option<KeyInfo>, String>(None),
                Some(e) => {
                    if e.error is Some {
                        r matches Err(m) && Some(m@) == e.error
                    } else if !e.active {
                        r == Ok::<Option<KeyInfo>, String>(None)
                    } else if old(self).rate_limited(key@) {
                        r matches Err(m) && m@ == "Rate limit exceeded"@
                    } else {
                        r matches Ok(Some(info)) && info.owner@ == e.owner && info.rate_limit == e.rate_limit
                    }
                },
            },
    {
        self.bump_count(key);
        let idx = match self.find_key_index(key) {
            Some(i) => i,
            None => {
                proof {
                    lemma_entry_lookup_absent(self.keys@, key@, 0);
                }
                return Ok(None);
            }
        };
        proof {
            lemma_entry_lookup_found(self.keys@, key@, idx as int, 0);
        }
        let entry = &self.keys[idx].1;
        match &entry.error {
            Some(e) => {
                return Err(e.clone());
            }
            None => {}
        }
        if !entry.active {
            return Ok(None);
        }
        let mut i: usize = 0;
        let mut limited: bool = false;
        while i < self.rate_limited_keys.len()
            invariant
                i <= self.rate_limited_keys@.len(),
                limited == exists|j: int| 0 <= j < i && (#[trigger] self.rate_limited_keys@[j])@ == key@,
            decreases self.rate_limited_keys@.len() - i,
        {
            if self.rate_limited_keys[i] == *key {
                limited = true;
            }
            i = i + 1;
        }
        if limited {
            return Err("Rate limit exceeded".to_owned());
        }
        Ok(Some(KeyInfo { owner: self.keys[idx].1.owner.clone(), rate_limit: self.keys[idx].1.rate_limit }))
    }
}

pub open spec fn saturating_inc64(c: u64) -> u64 {
    if c < u64::MAX { (c + 1) as u64 } else { u64::MAX }
}

proof fn lemma_entry_lookup_replace(before: Seq<(String, KeyEntry)>, after: Seq<(String, KeyEntry)>, k: Seq<char>, i: int, from: int)
    requires
        0 <= i < before.len(),
        after.len() == before.len(),
        forall|j: int| 0 <= j < before.len() && j != i ==> after[j] == before[j],
        after[i].0@ == before[i].0@,
        before[i].0@ == k,
        forall|j: int| 0 <= j < i ==> before[j].0@ != k,
        0 <= from <= before.len(),
    ensures
        from <= i ==> entry_lookup_from(after, k, from) == Some(after[i].1@),
    decreases before.len() - from,
{
    if from < before.len() && from <= i {
        if from == i {
        } else {
            lemma_entry_lookup_replace(before, after, k, i, from + 1);
        }
    }
}

proof fn lemma_entry_lookup_other(before: Seq<(String, KeyEntry)>, after: Seq<(String, KeyEntry)>, i: int, from: int)
    requires
        0 <= i < before.len(),
        after.len() == before.len(),
        forall|j: int| 0 <= j < before.len() && j != i ==> after[j] == before[j],
        after[i].0@ == before[i].0@,
        0 <= from <= before.len(),
    ensures
        forall|k: Seq<char>| k != before[i].0@ ==> entry_lookup_from(after, k, from) == entry_lookup_from(before, k, from),
    decreases before.len() - from,
{
    if from < before.len() {
        lemma_entry_lookup_other(before, after, i, from + 1);
        assert forall|k: Seq<char>| k != before[i].0@ implies entry_lookup_from(after, k, from) == entry_lookup_from(before, k, from) by {
            assert(entry_lookup_from(after, k, from + 1) == entry_lookup_from(before, k, from + 1));
        }
    }
}

proof fn lemma_entry_lookup_push(before: Seq<(String, KeyEntry)>, after: Seq<(String, KeyEntry)>, k: Seq<char>, from: int)
    requires
        after.len() == before.len() + 1,
        forall|j: int| 0 <= j < before.len() ==> after[j] == before[j],
        after[before.len() as int].0@ == k,
        forall|j: int| 0 <= j < before.len() ==> before[j].0@ != k,
        0 <= from <= before.len(),
    ensures
        entry_lookup_from(after, k, from) == Some(after[before.len() as int].1@),
        forall|k2: Seq<char>| k2 != k ==> entry_lookup_from(after, k2, from) == entry_lookup_from(before, k2, from),
    decreases before.len() - from,
{
    if from < before.len() {
        lemma_entry_lookup_push(before, after, k, from + 1);
        assert forall|k2: Seq<char>| k2 != k implies entry_lookup_from(after, k2, from) == entry_lookup_from(before, k2, from) by {
            assert(entry_lookup_from(after, k2, from + 1) == entry_lookup_from(before, k2, from + 1));
        }
    } else {
        assert forall|k2: Seq<char>| k2 != k implies entry_lookup_from(after, k2, from) == entry_lookup_from(before, k2, from) by {
            assert(entry_lookup_from(after, k2, from + 1) == entry_lookup_from(before, k2, from + 1));
        }
    }
}

proof fn lemma_entry_lookup_found(s: Seq<(String, KeyEntry)>, k: Seq<char>, i: int, from: int)
    requires
        0 <= i < s.len(),
        s[i].0@ == k,
        forall|j: int| 0 <= j < i ==> s[j].0@ != k,
        0 <= from <= i,
    ensures
        entry_lookup_from(s, k, from) == Some(s[i].1@),
    decreases i - from,
{
    if from < i {
        lemma_entry_lookup_found(s, k, i, from + 1);
    }
}

proof fn lemma_entry_lookup_absent(s: Seq<(String, KeyEntry)>, k: Seq<char>, from: int)
    requires
        forall|j: int| 0 <= j < s.len() ==> s[j].0@ != k,
        0 <= from <= s.len(),
    ensures
        entry_lookup_from(s, k, from) is None,
    decreases s.len() - from,
{
    if from < s.len() {
        lemma_entry_lookup_absent(s, k, from + 1);
    }
}

proof fn lemma_count_lookup_replace(before: Seq<(String, u64)>, after: Seq<(String, u64)>, k: Seq<char>, i: int, from: int)
    requires
        0 <= i < before.len(),
        after.len() == before.len(),
        forall|j: int| 0 <= j < before.len() && j != i ==> after[j] == before[j],
        after[i].0@ == before[i].0@,
        before[i].0@ == k,
        forall|j: int| 0 <= j < i ==> before[j].0@ != k,
        0 <= from <= before.len(),
    ensures
        from <= i ==> count_lookup_from(after, k, from) == after[i].1,
        from <= i ==> count_lookup_from(before, k, from) == before[i].1,
    decreases before.len() - from,
{
    if from < before.len() && from <= i {
        if from == i {
        } else {
            lemma_count_lookup_replace(before, after, k, i, from + 1);
        }
    }
}

proof fn lemma_count_lookup_other(before: Seq<(String, u64)>, after: Seq<(String, u64)>, i: int, from: int)
    requires
        0 <= i < before.len(),
        after.len() == before.len(),
        forall|j: int| 0 <= j < before.len() && j != i ==> after[j] == before[j],
        after[i].0@ == before[i].0@,
        0 <= from <= before.len(),
    ensures
        forall|k: Seq<char>| k != before[i].0@ ==> count_lookup_from(after, k, from) == count_lookup_from(before, k, from),
    decreases before.len() - from,
{
    if from < before.len() {
        lemma_count_lookup_other(before, after, i, from + 1);
        assert forall|k: Seq<char>| k != before[i].0@ implies count_lookup_from(after, k, from) == count_lookup_from(before, k, from) by {
            assert(count_lookup_from(after, k, from + 1) == count_lookup_from(before, k, from + 1));
        }
    }
}

proof fn lemma_count_lookup_push(before: Seq<(String, u64)>, after: Seq<(String, u64)>, k: Seq<char>, from: int)
    requires
        after.len() == before.len() + 1,
        forall|j: int| 0 <= j < before.len() ==> after[j] == before[j],
        after[before.len() as int].0@ == k,
        forall|j: int| 0 <= j < before.len() ==> before[j].0@ != k,
        0 <= from <= before.len(),
    ensures
        count_lookup_from(after, k, from) == after[before.len() as int].1,
        count_lookup_from(before, k, from) == 0,
        forall|k2: Seq<char>| k2 != k ==> count_lookup_from(after, k2, from) == count_lookup_from(before, k2, from),
    decreases before.len() - from,
{
    if from < before.len() {
        lemma_count_lookup_push(before, after, k, from + 1);
        assert forall|k2: Seq<char>| k2 != k implies count_lookup_from(after, k2, from) == count_lookup_from(before, k2, from) by {
            assert(count_lookup_from(after, k2, from + 1) == count_lookup_from(before, k2, from + 1));
        }
    } else {
        assert forall|k2: Seq<char>| k2 != k implies count_lookup_from(after, k2, from) == count_lookup_from(before, k2, from) by {
            assert(count_lookup_from(after, k2, from + 1) == count_lookup_from(before, k2, from + 1));
        }
    }
}

} // verus!
