//! The browser configuration store. The web build has no filesystem, so the
//! paths native builds use for `config.toml` and saved profiles become keys of
//! the page's `localStorage` (prefixed with `bava:`), and a directory listing
//! becomes a scan of those keys.

use vstd::prelude::*;
use crate::text::{contains_from, matches_at};

verus! {

/// Entries as (key, value) character sequences.
pub open spec fn items_unique(s: Seq<(Seq<char>, Seq<char>)>) -> bool {
    forall|i: int, j: int| 0 <= i < j < s.len() ==> s[i].0 != s[j].0
}

/// Whether some entry has key `k`.
pub open spec fn has_key(s: Seq<(Seq<char>, Seq<char>)>, k: Seq<char>) -> bool {
    exists|i: int| 0 <= i < s.len() && s[i].0 == k
}

/// The key/value map the entries describe.
pub open spec fn items_map(s: Seq<(Seq<char>, Seq<char>)>) -> Map<Seq<char>, Seq<char>> {
    Map::new(
        |k: Seq<char>| has_key(s, k),
        |k: Seq<char>| s[choose|i: int| 0 <= i < s.len() && s[i].0 == k].1,
    )
}

proof fn lemma_map_at(s: Seq<(Seq<char>, Seq<char>)>, i: int)
    requires
        items_unique(s),
        0 <= i < s.len(),
    ensures
        items_map(s).dom().contains(s[i].0),
        items_map(s)[s[i].0] == s[i].1,
{
    let k = s[i].0;
    assert(has_key(s, k));
    let j = choose|j: int| 0 <= j < s.len() && s[j].0 == k;
    if j != i {
        if j < i {
            assert(s[j].0 != s[i].0);
        } else {
            assert(s[i].0 != s[j].0);
        }
    }
}

proof fn lemma_map_update(s: Seq<(Seq<char>, Seq<char>)>, i: int, v: Seq<char>)
    requires
        items_unique(s),
        0 <= i < s.len(),
    ensures
        items_unique(s.update(i, (s[i].0, v))),
        items_map(s.update(i, (s[i].0, v))) =~= items_map(s).insert(s[i].0, v),
{
    let t = s.update(i, (s[i].0, v));
    let k = s[i].0;
    assert(items_unique(t)) by {
        assert forall|a: int, b: int| 0 <= a < b < t.len() implies t[a].0 != t[b].0 by {
            assert(t[a].0 == s[a].0 && t[b].0 == s[b].0);
        }
    }
    assert forall|q: Seq<char>| #[trigger] items_map(t).dom().contains(q) <==> items_map(s).insert(k, v).dom().contains(q) by {
        if has_key(t, q) {
            let j = choose|j: int| 0 <= j < t.len() && t[j].0 == q;
            assert(s[j].0 == q);
        }
        if has_key(s, q) {
            let j = choose|j: int| 0 <= j < s.len() && s[j].0 == q;
            assert(t[j].0 == q);
        }
    }
    assert forall|q: Seq<char>| #[trigger] items_map(t).dom().contains(q) implies items_map(t)[q] == items_map(s).insert(k, v)[q] by {
        let j = choose|j: int| 0 <= j < t.len() && t[j].0 == q;
        lemma_map_at(t, j);
        if j != i {
            lemma_map_at(s, j);
            assert(s[j].0 == q);
        }
    }
}

proof fn lemma_map_push(s: Seq<(Seq<char>, Seq<char>)>, k: Seq<char>, v: Seq<char>)
    requires
        items_unique(s),
        !has_key(s, k),
    ensures
        items_unique(s.push((k, v))),
        items_map(s.push((k, v))) =~= items_map(s).insert(k, v),
{
    let t = s.push((k, v));
    assert(items_unique(t)) by {
        assert forall|a: int, b: int| 0 <= a < b < t.len() implies t[a].0 != t[b].0 by {
            if b == s.len() {
                assert(t[a].0 == s[a].0);
            } else {
                assert(t[a].0 == s[a].0 && t[b].0 == s[b].0);
            }
        }
    }
    assert forall|q: Seq<char>| #[trigger] items_map(t).dom().contains(q) <==> items_map(s).insert(k, v).dom().contains(q) by {
        if has_key(t, q) {
            let j = choose|j: int| 0 <= j < t.len() && t[j].0 == q;
            if j < s.len() {
                assert(s[j].0 == q);
            }
        }
        if has_key(s, q) {
            let j = choose|j: int| 0 <= j < s.len() && s[j].0 == q;
            assert(t[j].0 == q);
        }
        if q == k {
            assert(t[s.len() as int].0 == q);
        }
    }
    assert forall|q: Seq<char>| #[trigger] items_map(t).dom().contains(q) implies items_map(t)[q] == items_map(s).insert(k, v)[q] by {
        let j = choose|j: int| 0 <= j < t.len() && t[j].0 == q;
        lemma_map_at(t, j);
        if j < s.len() {
            lemma_map_at(s, j);
            assert(s[j].0 == q);
        }
    }
}

proof fn lemma_map_remove(s: Seq<(Seq<char>, Seq<char>)>, i: int)
    requires
        items_unique(s),
        0 <= i < s.len(),
    ensures
        items_unique(s.remove(i)),
        items_map(s.remove(i)) =~= items_map(s).remove(s[i].0),
{
    let t = s.remove(i);
    let k = s[i].0;
    assert forall|a: int| 0 <= a < t.len() implies #[trigger] t[a] == (if a < i { s[a] } else { s[a + 1] }) by {}
    assert(items_unique(t)) by {
        assert forall|a: int, b: int| 0 <= a < b < t.len() implies t[a].0 != t[b].0 by {
            let sa = if a < i { a } else { a + 1 };
            let sb = if b < i { b } else { b + 1 };
            assert(t[a] == s[sa] && t[b] == s[sb]);
        }
    }
    assert forall|q: Seq<char>| #[trigger] items_map(t).dom().contains(q) <==> items_map(s).remove(k).dom().contains(q) by {
        if has_key(t, q) {
            let j = choose|j: int| 0 <= j < t.len() && t[j].0 == q;
            let sj = if j < i { j } else { j + 1 };
            assert(t[j] == s[sj]);
            assert(s[sj].0 == q);
            if q == k {
                if sj < i {
                    assert(s[sj].0 != s[i].0);
                } else {
                    assert(s[i].0 != s[sj].0);
                }
            }
        }
        if has_key(s, q) && q != k {
            let j = choose|j: int| 0 <= j < s.len() && s[j].0 == q;
            assert(j != i);
            let tj = if j < i { j } else { j - 1 };
            assert(t[tj] == s[j]);
        }
    }
    assert forall|q: Seq<char>| #[trigger] items_map(t).dom().contains(q) implies items_map(t)[q] == items_map(s).remove(k)[q] by {
        let j = choose|j: int| 0 <= j < t.len() && t[j].0 == q;
        lemma_map_at(t, j);
        let sj = if j < i { j } else { j + 1 };
        assert(t[j] == s[sj]);
        lemma_map_at(s, sj);
    }
}

/// Characters an entry occupies: its key and its value.
pub open spec fn entry_size(e: (Seq<char>, Seq<char>)) -> nat {
    e.0.len() + e.1.len()
}

/// Characters all entries occupy.
pub open spec fn items_size(s: Seq<(Seq<char>, Seq<char>)>) -> nat
    decreases s.len(),
{
    if s.len() == 0 { 0 } else { items_size(s.drop_last()) + entry_size(s.last()) }
}

proof fn lemma_size_update(s: Seq<(Seq<char>, Seq<char>)>, i: int, e: (Seq<char>, Seq<char>))
    requires
        0 <= i < s.len(),
    ensures
        items_size(s.update(i, e)) + entry_size(s[i]) == items_size(s) + entry_size(e),
    decreases s.len(),
{
    let t = s.update(i, e);
    if i == s.len() - 1 {
        assert(t.drop_last() =~= s.drop_last());
    } else {
        lemma_size_update(s.drop_last(), i, e);
        assert(t.drop_last() =~= s.drop_last().update(i, e));
    }
}

proof fn lemma_size_remove(s: Seq<(Seq<char>, Seq<char>)>, i: int)
    requires
        0 <= i < s.len(),
    ensures
        items_size(s.remove(i)) + entry_size(s[i]) == items_size(s),
    decreases s.len(),
{
    let t = s.remove(i);
    if i == s.len() - 1 {
        assert(t =~= s.drop_last());
    } else {
        lemma_size_remove(s.drop_last(), i);
        assert(t.drop_last() =~= s.drop_last().remove(i));
        assert(t.last() == s.last());
    }
}

/// Characters a browser grants one origin by default.
pub const DEFAULT_QUOTA: usize = 5_242_880;

/// A model of a browser `localStorage` area: string keys mapped to string
/// values, with a quota on the characters all keys and values occupy
/// together, and keys enumerated in the order they were first stored. The
/// quota rule (counted in characters) and the enumeration order are this
/// model's assumptions; they have not been checked against any browser,
/// whose quotas and key order may differ.
#[derive(Debug)]
pub struct LocalStorage {
    entries: Vec<(String, String)>,
    used: usize,
    quota: usize,
}

impl LocalStorage {
    /// The entries as character sequences, in enumeration order.
    pub closed spec fn items(&self) -> Seq<(Seq<char>, Seq<char>)> {
        self.entries@.map_values(|e: (String, String)| (e.0@, e.1@))
    }

    /// No key is stored twice, and the entries fit the quota.
    pub closed spec fn wf(&self) -> bool {
        &&& items_unique(self.items())
        &&& self.used == items_size(self.items())
        &&& self.used <= self.quota
    }

    /// Characters stored.
    pub closed spec fn spec_used(&self) -> nat {
        self.used as nat
    }

    /// Characters this area may hold.
    pub closed spec fn spec_quota(&self) -> nat {
        self.quota as nat
    }

    /// Whether storing `v` under `k` stays within the quota: the characters
    /// stored, less those of any entry `k` replaces, plus the new entry's.
    pub open spec fn spec_fits(&self, k: Seq<char>, v: Seq<char>) -> bool {
        let freed: int = if self@.dom().contains(k) { (k.len() + self@[k].len()) as int } else { 0int };
        self.spec_used() - freed + k.len() + v.len() <= self.spec_quota()
    }

    /// What each key holds.
    pub closed spec fn view(&self) -> Map<Seq<char>, Seq<char>> {
        items_map(self.items())
    }

    /// The stored keys, in enumeration order.
    pub closed spec fn spec_keys(&self) -> Seq<Seq<char>> {
        self.items().map_values(|e: (Seq<char>, Seq<char>)| e.0)
    }

    /// The keys are exactly the map's domain, each listed once.
    pub proof fn lemma_keys(&self)
        requires
            self.wf(),
        ensures
            self.spec_keys().no_duplicates(),
            forall|k: Seq<char>| #[trigger] self@.dom().contains(k) <==> self.spec_keys().contains(k),
            self@.dom().finite(),
    {
        let ks = self.spec_keys();
        assert forall|k: Seq<char>| #[trigger] self@.dom().contains(k) <==> ks.contains(k) by {
            if self@.dom().contains(k) {
                let j = choose|j: int| 0 <= j < self.items().len() && self.items()[j].0 == k;
                assert(ks[j] == k);
            }
            if ks.contains(k) {
                let j = choose|j: int| 0 <= j < ks.len() && ks[j] == k;
                assert(self.items()[j].0 == k);
            }
        }
        assert(self@.dom() =~= ks.to_set());
        vstd::seq_lib::seq_to_set_is_finite(ks);
    }

    /// An empty storage area with the default quota.
    pub fn new() -> (r: LocalStorage)
        ensures
            r.wf(),
            r@ == Map::<Seq<char>, Seq<char>>::empty(),
            r.spec_keys() == Seq::<Seq<char>>::empty(),
            r.spec_used() == 0,
            r.spec_quota() == DEFAULT_QUOTA,
    {
        LocalStorage::with_quota(DEFAULT_QUOTA)
    }

    /// An empty storage area holding at most `quota` characters.
    pub fn with_quota(quota: usize) -> (r: LocalStorage)
        ensures
            r.wf(),
            r@ == Map::<Seq<char>, Seq<char>>::empty(),
            r.spec_keys() == Seq::<Seq<char>>::empty(),
            r.spec_used() == 0,
            r.spec_quota() == quota,
    {
        let r = LocalStorage { entries: Vec::new(), used: 0, quota };
        assert(r.items() =~= Seq::<(Seq<char>, Seq<char>)>::empty());
        assert(r@ =~= Map::<Seq<char>, Seq<char>>::empty());
        assert(r.spec_keys() =~= Seq::<Seq<char>>::empty());
        r
    }

    /// Position of `key` among the entries, if stored.
    fn position(&self, key: &String) -> (r: Option<usize>)
        requires
            self.wf(),
        ensures
            r is None <==> !self@.dom().contains(key@),
            r matches Some(i) ==> i < self.items().len() && self.items()[i as int].0 == key@,
    {
        let n = self.entries.len();
        let mut i: usize = 0;
        while i < n
            invariant
                n == self.entries@.len(),
                n == self.items().len(),
                0 <= i <= n,
                forall|j: int| 0 <= j < i ==> self.items()[j].0 != key@,
            decreases n - i,
        {
            assert(self.items()[i as int] == (self.entries@[i as int].0@, self.entries@[i as int].1@));
            if self.entries[i].0.eq(key) {
                return Some(i);
            }
            i = i + 1;
        }
        None
    }

    /// The value stored under `key`.
    pub fn get_item(&self, key: &str) -> (r: Option<String>)
        requires
            self.wf(),
        ensures
            r is None <==> !self@.dom().contains(key@),
            r matches Some(v) ==> v@ == self@[key@],
    {
        let k = String::from_str(key);
        match self.position(&k) {
            None => None,
            Some(i) => {
                proof {
                    lemma_map_at(self.items(), i as int);
                }
                assert(self.items()[i as int] == (self.entries@[i as int].0@, self.entries@[i as int].1@));
                Some(self.entries[i].1.clone())
            },
        }
    }

    /// Store `value` under `key`, replacing any previous value, when the
    /// result fits the quota; otherwise change nothing and report `false`. A
    /// new key is enumerated after all existing ones; an existing key keeps
    /// its place.
    pub fn set_item(&mut self, key: &str, value: &str) -> (r: bool)
        requires
            old(self).wf(),
        ensures
            final(self).wf(),
            final(self).spec_quota() == old(self).spec_quota(),
            r == old(self).spec_fits(key@, value@),
            r ==> final(self)@ == old(self)@.insert(key@, value@),
            r ==> final(self).spec_keys() == (if old(self)@.dom().contains(key@) {
                old(self).spec_keys()
            } else {
                old(self).spec_keys().push(key@)
            }),
            !r ==> final(self)@ == old(self)@ && final(self).spec_keys() == old(self).spec_keys()
                && final(self).spec_used() == old(self).spec_used(),
    {
        let k = String::from_str(key);
        let v = String::from_str(value);
        let klen = crate::text::chars_of(key).len();
        let vlen = crate::text::chars_of(value).len();
        let ghost before = self.items();
        match self.position(&k) {
            Some(i) => {
                let old_vlen = crate::text::chars_of(self.entries[i].1.as_str()).len();
                proof {
                    lemma_map_at(before, i as int);
                    assert(before[i as int] == (self.entries@[i as int].0@, self.entries@[i as int].1@));
                    lemma_size_remove(before, i as int);
                    assert(entry_size(before[i as int]) == klen + old_vlen);
                }
                let base = self.used - (klen + old_vlen);
                let room = self.quota - base;
                if klen > room || vlen > room - klen {
                    return false;
                }
                proof {
                    lemma_map_update(before, i as int, value@);
                    lemma_size_update(before, i as int, (key@, value@));
                }
                self.entries.set(i, (k, v));
                self.used = base + klen + vlen;
                assert(self.items() =~= before.update(i as int, (before[i as int].0, value@)));
                assert(self.spec_keys() =~= old(self).spec_keys());
            },
            None => {
                let base = self.used;
                let room = self.quota - base;
                if klen > room || vlen > room - klen {
                    return false;
                }
                proof {
                    if has_key(before, key@) {
                        assert(items_map(before).dom().contains(key@));
                    }
                    lemma_map_push(before, key@, value@);
                    assert(before.push((key@, value@)).drop_last() =~= before);
                }
                self.entries.push((k, v));
                self.used = base + klen + vlen;
                assert(self.items() =~= before.push((key@, value@)));
                assert(self.spec_keys() =~= old(self).spec_keys().push(key@));
            },
        }
        true
    }

    /// Remove `key` and its value, if stored.
    pub fn remove_item(&mut self, key: &str)
        requires
            old(self).wf(),
        ensures
            final(self).wf(),
            final(self).spec_quota() == old(self).spec_quota(),
            final(self)@ == old(self)@.remove(key@),
            !old(self)@.dom().contains(key@) ==> final(self).spec_keys() == old(self).spec_keys(),
            old(self)@.dom().contains(key@) ==> exists|i: int| 0 <= i < old(self).spec_keys().len()
                && old(self).spec_keys()[i] == key@
                && final(self).spec_keys() == old(self).spec_keys().remove(i),
    {
        let k = String::from_str(key);
        let ghost before = self.items();
        match self.position(&k) {
            Some(i) => {
                let klen = crate::text::chars_of(self.entries[i].0.as_str()).len();
                let vlen = crate::text::chars_of(self.entries[i].1.as_str()).len();
                proof {
                    assert(before[i as int] == (self.entries@[i as int].0@, self.entries@[i as int].1@));
                    lemma_map_remove(before, i as int);
                    lemma_size_remove(before, i as int);
                }
                self.entries.remove(i);
                self.used = self.used - (klen + vlen);
                assert(self.items() =~= before.remove(i as int));
                assert(self.spec_keys() =~= old(self).spec_keys().remove(i as int));
            },
            None => {
                assert(self@ =~= old(self)@.remove(key@));
            },
        }
    }

    /// Number of stored keys.
    pub fn length(&self) -> (r: usize)
        ensures
            r == self.spec_keys().len(),
    {
        self.entries.len()
    }

    /// The `index`-th stored key, or `None` past the end.
    pub fn key(&self, index: usize) -> (r: Option<String>)
        ensures
            r is None <==> index >= self.spec_keys().len(),
            r matches Some(k) ==> k@ == self.spec_keys()[index as int],
    {
        if index < self.entries.len() {
            Some(self.entries[index].0.clone())
        } else {
            None
        }
    }
}

/// Why a store operation failed.
#[derive(Clone, Debug, PartialEq, Eq)]
pub enum StoreError {
    /// Nothing to read: the storage area is unavailable or the key is absent.
    NotFound(String),
    /// The browser refused the write: the origin's quota would be exceeded.
    Rejected(String),
}

/// The prefix on every key the app owns, so a config cannot collide with
/// anything else the hosting page keeps in `localStorage`.
pub open spec fn spec_prefix() -> Seq<char> {
    seq!['b', 'a', 'v', 'a', ':']
}

/// The storage key of a path.
pub open spec fn spec_key(path: Seq<char>) -> Seq<char> {
    spec_prefix() + path
}

/// The synthetic root standing in for the per-user config directory, so
/// paths built on it (`bava/config.toml`, `bava/profiles/x.toml`) read the
/// same as native ones.
pub fn config_dir() -> (r: Option<String>)
    ensures
        r matches Some(d) && d@ == seq!['/', 'c', 'o', 'n', 'f', 'i', 'g'],
{
    let d = String::from_str("/config");
    proof {
        reveal_strlit("/config");
    }
    Some(d)
}

/// The web config path: `/config/bava/config.toml`.
pub fn default_path() -> (r: Option<String>)
    ensures
        r matches Some(p) && p@ == "/config/bava/config.toml"@,
{
    let p = String::from_str("/config/bava/config.toml");
    Some(p)
}

/// The web profiles directory: `/config/bava/profiles`.
pub fn profiles_dir() -> (r: Option<String>)
    ensures
        r matches Some(p) && p@ == "/config/bava/profiles"@,
{
    let p = String::from_str("/config/bava/profiles");
    Some(p)
}

/// The `localStorage` key holding `path`: `bava:` followed by the path.
pub fn key(path: &str) -> (r: String)
    ensures
        r@ == spec_key(path@),
{
    let mut k = String::from_str("bava:");
    proof {
        reveal_strlit("bava:");
    }
    k.append(path);
    k
}

/// Different paths never share a storage key.
pub proof fn law_keys_are_distinct(a: Seq<char>, b: Seq<char>)
    requires
        a != b,
    ensures
        spec_key(a) != spec_key(b),
{
    if spec_key(a) == spec_key(b) {
        assert(a =~= spec_key(a).subrange(5, spec_key(a).len() as int));
        assert(b =~= spec_key(b).subrange(5, spec_key(b).len() as int));
    }
}

/// A "not found" error carrying `what`.
pub fn missing(what: &str) -> (r: StoreError)
    ensures
        r matches StoreError::NotFound(m) && m@ == what@,
{
    StoreError::NotFound(String::from_str(what))
}

/// The error reported when the browser denies `localStorage`.
pub open spec fn spec_unavailable() -> Seq<char> {
    "localStorage unavailable"@
}

/// The error reported for an absent key.
pub open spec fn spec_no_such_key() -> Seq<char> {
    "no such key"@
}

/// What reading `path` gives: the stored text, or "not found" when storage
/// is unavailable or the key is absent.
pub open spec fn spec_read(storage: Option<Map<Seq<char>, Seq<char>>>, path: Seq<char>) -> Result<Seq<char>, Seq<char>> {
    match storage {
        None => Err(spec_unavailable()),
        Some(m) => if m.dom().contains(spec_key(path)) {
            Ok(m[spec_key(path)])
        } else {
            Err(spec_no_such_key())
        },
    }
}

/// View of an optional storage area.
pub open spec fn storage_view(s: &Option<LocalStorage>) -> Option<Map<Seq<char>, Seq<char>>> {
    match s {
        Some(st) => Some(st@),
        None => None,
    }
}

/// A usable storage area is well formed.
pub open spec fn storage_wf(s: &Option<LocalStorage>) -> bool {
    s matches Some(st) ==> st.wf()
}

/// The rejection reported when a write would exceed the quota.
pub open spec fn spec_rejected() -> Seq<char> {
    "localStorage write rejected (quota exceeded?)"@
}

/// Read the text stored at `path`. A "not found" error (rather than any
/// other) is what makes a first start write fresh defaults.
pub fn read(storage: &Option<LocalStorage>, path: &str) -> (r: Result<String, StoreError>)
    requires
        storage_wf(storage),
    ensures
        match spec_read(storage_view(storage), path@) {
            Ok(t) => r matches Ok(s) && s@ == t,
            Err(m) => r matches Err(StoreError::NotFound(e)) && e@ == m,
        },
{
    match storage {
        None => {
            let e = missing("localStorage unavailable");
            proof {
                reveal_strlit("localStorage unavailable");
            }
            Err(e)
        },
        Some(st) => {
            let k = key(path);
            match st.get_item(k.as_str()) {
                Some(t) => Ok(t),
                None => {
                    let e = missing("no such key");
                    proof {
                        reveal_strlit("no such key");
                    }
                    Err(e)
                },
            }
        },
    }
}

/// Whether writing `text` at `path` succeeds: storage is available and the
/// result fits its quota.
pub open spec fn spec_write_fits(storage: &Option<LocalStorage>, path: Seq<char>, text: Seq<char>) -> bool {
    storage matches Some(st) && st.spec_fits(spec_key(path), text)
}

/// Store `text` at `path`. Fails, changing nothing, when storage is
/// unavailable ("not found") or the write would exceed the quota
/// ("rejected").
pub fn write(storage: &mut Option<LocalStorage>, path: &str, text: &str) -> (r: Result<(), StoreError>)
    requires
        storage_wf(old(storage)),
    ensures
        storage_wf(final(storage)),
        *old(storage) is None ==> *final(storage) is None
            && (r matches Err(StoreError::NotFound(m)) && m@ == spec_unavailable()),
        *old(storage) is Some && !spec_write_fits(old(storage), path@, text@) ==>
            storage_view(final(storage)) == storage_view(old(storage))
            && (r matches Err(StoreError::Rejected(m)) && m@ == spec_rejected()),
        spec_write_fits(old(storage), path@, text@) ==> r is Ok
            && storage_view(final(storage)) == Some(storage_view(old(storage))->Some_0.insert(spec_key(path@), text@)),
        *old(storage) is Some ==> *final(storage) is Some
            && (*final(storage))->Some_0.spec_quota() == (*old(storage))->Some_0.spec_quota(),
{
    match storage.take() {
        None => {
            let e = missing("localStorage unavailable");
            proof {
                reveal_strlit("localStorage unavailable");
            }
            Err(e)
        },
        Some(mut st) => {
            let k = key(path);
            let stored = st.set_item(k.as_str(), text);
            *storage = Some(st);
            if stored {
                Ok(())
            } else {
                let m = String::from_str("localStorage write rejected (quota exceeded?)");
                proof {
                    reveal_strlit("localStorage write rejected (quota exceeded?)");
                }
                Err(StoreError::Rejected(m))
            }
        },
    }
}

/// The store after moving text `t` from `from` to `to`: `to` holds `t` and
/// `from` is gone; moving a path onto itself leaves everything as it was.
pub open spec fn spec_moved(m: Map<Seq<char>, Seq<char>>, from: Seq<char>, to: Seq<char>, t: Seq<char>) -> Map<Seq<char>, Seq<char>> {
    if from == to { m } else { m.insert(spec_key(to), t).remove(spec_key(from)) }
}

/// Move the text at `from` to `to`: read it, write it at `to`, then remove
/// `from` (unless it is `to` itself). Fails, changing nothing, when `from` cannot be read or the copy
/// would exceed the quota.
pub fn rename(storage: &mut Option<LocalStorage>, from: &str, to: &str) -> (r: Result<(), StoreError>)
    requires
        storage_wf(old(storage)),
    ensures
        storage_wf(final(storage)),
        match spec_read(storage_view(old(storage)), from@) {
            Err(m) => storage_view(final(storage)) == storage_view(old(storage))
                && (r matches Err(StoreError::NotFound(e)) && e@ == m),
            Ok(t) => if spec_write_fits(old(storage), to@, t) {
                r is Ok && storage_view(final(storage)) == Some(
                    spec_moved(storage_view(old(storage))->Some_0, from@, to@, t))
            } else {
                storage_view(final(storage)) == storage_view(old(storage))
                    && (r matches Err(StoreError::Rejected(e)) && e@ == spec_rejected())
            },
        },
{
    let text = match read(storage, from) {
        Ok(t) => t,
        Err(e) => return Err(e),
    };
    let written = write(storage, to, text.as_str());
    match written {
        Ok(()) => {},
        Err(e) => return Err(e),
    }
    let same = String::from_str(from).eq(&String::from_str(to));
    if same {
        proof {
            let m = storage_view(old(storage))->Some_0;
            assert(m.insert(spec_key(from@), text@) =~= m);
        }
        return Ok(());
    }
    match storage.take() {
        Some(mut st) => {
            let k = key(from);
            st.remove_item(k.as_str());
            *storage = Some(st);
        },
        None => {},
    }
    Ok(())
}

/// Reading a path gives back exactly what was last written there, and a
/// write leaves every other path reading as before.
pub proof fn law_read_after_write(m: Map<Seq<char>, Seq<char>>, path: Seq<char>, text: Seq<char>, other: Seq<char>)
    requires
        other != path,
    ensures
        spec_read(Some(m.insert(spec_key(path), text)), path) == Ok::<Seq<char>, Seq<char>>(text),
        spec_read(Some(m.insert(spec_key(path), text)), other) == spec_read(Some(m), other),
{
    law_keys_are_distinct(path, other);
}

/// After a successful rename the text is found at the new path, the old
/// path reads as absent unless it is the new one, and other paths are
/// untouched; renaming a path onto itself changes nothing.
pub proof fn law_rename_moves(m: Map<Seq<char>, Seq<char>>, from: Seq<char>, to: Seq<char>, other: Seq<char>)
    requires
        other != from,
        other != to,
        spec_read(Some(m), from) is Ok,
    ensures
        ({
            let after = spec_moved(m, from, to, spec_read(Some(m), from)->Ok_0);
            &&& spec_read(Some(after), to) == spec_read(Some(m), from)
            &&& from != to ==> spec_read(Some(after), from) == Err::<Seq<char>, Seq<char>>(spec_no_such_key())
            &&& from == to ==> after == m
            &&& spec_read(Some(after), other) == spec_read(Some(m), other)
        }),
{
    if from != to {
        law_keys_are_distinct(from, to);
        law_keys_are_distinct(other, from);
        law_keys_are_distinct(other, to);
    }
}

/// The profile stem a storage key names when it lies directly under
/// `dir_key` and ends in `.toml`.
pub open spec fn spec_stem_of(k: Seq<char>, dir_key: Seq<char>) -> Option<Seq<char>> {
    if k.len() >= dir_key.len() && k.subrange(0, dir_key.len() as int) == dir_key {
        let rest = k.subrange(dir_key.len() as int, k.len() as int);
        if rest.contains('/') {
            None
        } else if rest.len() >= 5 && rest.subrange(rest.len() - 5, rest.len() as int) == ".toml"@ {
            Some(rest.subrange(0, rest.len() - 5))
        } else {
            None
        }
    } else {
        None
    }
}

/// Stems of the keys in `keys` that name `.toml` files directly under
/// `dir_key`, in key order.
pub open spec fn spec_stems(keys: Seq<Seq<char>>, dir_key: Seq<char>) -> Seq<Seq<char>>
    decreases keys.len(),
{
    if keys.len() == 0 {
        Seq::empty()
    } else {
        let front = spec_stems(keys.drop_last(), dir_key);
        match spec_stem_of(keys.last(), dir_key) {
            Some(s) => front.push(s),
            None => front,
        }
    }
}

/// The key prefix of everything directly inside directory `dir`.
pub open spec fn spec_dir_key(dir: Seq<char>) -> Seq<char> {
    spec_key(dir) + seq!['/']
}

/// The stem a key names under `dir_key`, computed.
fn stem_of(k: &Vec<char>, dir_key: &Vec<char>) -> (r: Option<Vec<char>>)
    ensures
        match r {
            Some(s) => spec_stem_of(k@, dir_key@) == Some(s@),
            None => spec_stem_of(k@, dir_key@) is None,
        },
{
    let n = k.len();
    let d = dir_key.len();
    if !matches_at(k, 0, dir_key) {
        assert(k@.subrange(0, d as int) == dir_key@ ==> false || n < d);
        return None;
    }
    let ghost rest = k@.subrange(d as int, n as int);
    if contains_from(k, d, '/') {
        return None;
    }
    let suffix: Vec<char> = vec!['.', 't', 'o', 'm', 'l'];
    assert(suffix@ == ".toml"@) by {
        reveal_strlit(".toml");
    }
    if n - d < 5 {
        return None;
    }
    if !matches_at(k, n - 5, &suffix) {
        assert(rest.subrange(rest.len() - 5, rest.len() as int) =~= k@.subrange(n - 5, n as int));
        return None;
    }
    assert(rest.subrange(rest.len() - 5, rest.len() as int) =~= k@.subrange(n - 5, n as int));
    let mut out: Vec<char> = Vec::new();
    let mut i = d;
    while i < n - 5
        invariant
            n == k@.len(),
            d + 5 <= n,
            d <= i <= n - 5,
            out@ == k@.subrange(d as int, i as int),
        decreases n - 5 - i,
    {
        out.push(k[i]);
        assert(k@.subrange(d as int, (i + 1) as int) =~= k@.subrange(d as int, i as int).push(k@[i as int]));
        i = i + 1;
    }
    assert(out@ =~= rest.subrange(0, rest.len() - 5));
    Some(out)
}

/// Stems of the `.toml` keys directly under directory `dir`, in the order
/// storage enumerates them; empty when storage is unavailable. This is how
/// the flat key space models "files in a directory".
pub fn list_toml_stems(storage: &Option<LocalStorage>, dir: &str) -> (r: Vec<String>)
    ensures
        r@.map_values(|s: String| s@) == (match storage {
            None => Seq::<Seq<char>>::empty(),
            Some(st) => spec_stems(st.spec_keys(), spec_dir_key(dir@)),
        }),
{
    let st = match storage {
        None => {
            let r: Vec<String> = Vec::new();
            assert(r@.map_values(|s: String| s@) =~= Seq::<Seq<char>>::empty());
            return r;
        },
        Some(st) => st,
    };
    let mut dk = key(dir);
    dk.append("/");
    proof {
        reveal_strlit("/");
    }
    let dir_key = crate::text::chars_of(dk.as_str());
    let ghost keys = st.spec_keys();
    let len = st.length();
    let mut out: Vec<String> = Vec::new();
    let mut i: usize = 0;
    while i < len
        invariant
            len == keys.len(),
            keys == st.spec_keys(),
            dir_key@ == spec_dir_key(dir@),
            0 <= i <= len,
            out@.map_values(|s: String| s@) == spec_stems(keys.take(i as int), dir_key@),
        decreases len - i,
    {
        let k = match st.key(i) {
            Some(k) => k,
            None => {
                assert(false);
                return out;
            },
        };
        let kc = crate::text::chars_of(k.as_str());
        let ghost before = out@.map_values(|s: String| s@);
        assert(keys.take((i + 1) as int).drop_last() =~= keys.take(i as int));
        assert(keys.take((i + 1) as int).last() == keys[i as int]);
        match stem_of(&kc, &dir_key) {
            Some(s) => {
                let st_s = crate::text::string_from_chars(&s);
                out.push(st_s);
                assert(out@.map_values(|s: String| s@) =~= before.push(s@));
            },
            None => {},
        }
        i = i + 1;
    }
    assert(keys.take(len as int) =~= keys);
    out
}

/// Every stem of a listed key shows up in the listing.
proof fn lemma_stems_contain(keys: Seq<Seq<char>>, dir_key: Seq<char>, i: int)
    requires
        0 <= i < keys.len(),
        spec_stem_of(keys[i], dir_key) is Some,
    ensures
        spec_stems(keys, dir_key).contains(spec_stem_of(keys[i], dir_key)->Some_0),
    decreases keys.len(),
{
    let s = spec_stem_of(keys[i], dir_key)->Some_0;
    let front = spec_stems(keys.drop_last(), dir_key);
    if i == keys.len() - 1 {
        assert(spec_stems(keys, dir_key) == front.push(s));
        assert(front.push(s)[front.len() as int] == s);
    } else {
        lemma_stems_contain(keys.drop_last(), dir_key, i);
        assert(keys.drop_last()[i] == keys[i]);
        let j = choose|j: int| 0 <= j < front.len() && front[j] == s;
        match spec_stem_of(keys.last(), dir_key) {
            Some(t) => assert(front.push(t)[j] == s),
            None => {},
        }
    }
}

/// A profile written as `<dir>/<stem>.toml` is listed under `dir` by its
/// stem, as long as the stem holds no `/`.
pub proof fn law_written_profile_is_listed(st: LocalStorage, dir: Seq<char>, stem: Seq<char>)
    requires
        st.wf(),
        !stem.contains('/'),
        st@.dom().contains(spec_key(dir + seq!['/'] + stem + ".toml"@)),
    ensures
        spec_stems(st.spec_keys(), spec_dir_key(dir)).contains(stem),
{
    let k = spec_key(dir + seq!['/'] + stem + ".toml"@);
    let dk = spec_dir_key(dir);
    st.lemma_keys();
    let ks = st.spec_keys();
    let i = choose|i: int| 0 <= i < ks.len() && ks[i] == k;
    assert(k =~= dk + (stem + ".toml"@));
    assert(k.subrange(0, dk.len() as int) =~= dk);
    let rest = k.subrange(dk.len() as int, k.len() as int);
    assert(rest =~= stem + ".toml"@);
    assert(".toml"@ =~= seq!['.', 't', 'o', 'm', 'l']) by {
        reveal_strlit(".toml");
    }
    assert(!rest.contains('/')) by {
        if rest.contains('/') {
            let j = choose|j: int| 0 <= j < rest.len() && rest[j] == '/';
            if j < stem.len() {
                assert(stem[j] == '/');
            }
        }
    }
    assert(rest.subrange(rest.len() - 5, rest.len() as int) =~= ".toml"@);
    assert(rest.subrange(0, rest.len() - 5) =~= stem);
    lemma_stems_contain(ks, dk, i);
}

} // verus!
