//! Profiling bookkeeping: which spans become profiler scopes, how scopes are
//! unwound when spans exit out of order, scope names, report rows and the
//! per-scope statistics a periodic report aggregates.

use vstd::prelude::*;
use crate::text::{chars_of, trim_chars, ascii_lower_chars, string_from_chars, spec_trim, spec_ascii_lower_seq};

verus! {

/// Spans that stay entered for the whole process and so must never become
/// scopes: a thread's scope stream is only flushed once its depth returns to
/// zero, which these would prevent forever.
pub open spec fn spec_is_long_lived(name: Seq<char>) -> bool {
    name == "bevy_app"@ || name == "render thread"@
}

/// Whether a span is one of the process-long spans.
pub fn is_long_lived(name: &str) -> (r: bool)
    ensures
        r == spec_is_long_lived(name@),
{
    let n = String::from_str(name);
    let a = String::from_str("bevy_app");
    let b = String::from_str("render thread");
    n.eq(&a) || n.eq(&b)
}

/// Setting values that switch collection off: `off`, `0` or `false`, in any
/// letter case, surrounding white space ignored.
pub open spec fn spec_is_off(value: Seq<char>) -> bool {
    let v = spec_ascii_lower_seq(spec_trim(value));
    v == "off"@ || v == "0"@ || v == "false"@
}

/// Whether collection is enabled, given the profiling setting (if set): it
/// is, unless the setting says off.
pub fn collection_enabled(setting: &Option<String>) -> (r: bool)
    ensures
        r == !(setting matches Some(v) && spec_is_off(v@)),
{
    match setting {
        None => true,
        Some(v) => {
            let chars = chars_of(v.as_str());
            let t = trim_chars(&chars);
            let l = ascii_lower_chars(&t);
            let s = string_from_chars(&l);
            let off = String::from_str("off");
            let zero = String::from_str("0");
            let no = String::from_str("false");
            !(s.eq(&off) || s.eq(&zero) || s.eq(&no))
        },
    }
}

/// Open scopes on one thread, innermost last: each span id with the stream
/// offset its scope began at.
#[derive(Clone, Debug)]
pub struct SpanStack {
    pub open: Vec<(u64, usize)>,
}

/// Position of the innermost open scope of span `id`, or -1.
pub open spec fn spec_rposition(s: Seq<(u64, usize)>, id: u64) -> int
    decreases s.len(),
{
    if s.len() == 0 {
        -1
    } else if s.last().0 == id {
        s.len() - 1
    } else {
        spec_rposition(s.drop_last(), id)
    }
}

proof fn lemma_rposition(s: Seq<(u64, usize)>, id: u64)
    ensures
        -1 <= spec_rposition(s, id) < s.len(),
        spec_rposition(s, id) >= 0 ==> s[spec_rposition(s, id)].0 == id,
        forall|k: int| spec_rposition(s, id) < k < s.len() ==> s[k].0 != id,
    decreases s.len(),
{
    if s.len() > 0 && s.last().0 != id {
        let t = s.drop_last();
        lemma_rposition(t, id);
        assert forall|k: int| spec_rposition(s, id) < k < s.len() implies s[k].0 != id by {
            if k < s.len() - 1 {
                assert(s[k] == t[k]);
            }
        }
    }
}

/// Offsets of the scopes `s[pos..]`, innermost first.
pub open spec fn spec_offsets_innermost_first(s: Seq<(u64, usize)>, pos: int) -> Seq<usize> {
    s.skip(pos).reverse().map_values(|e: (u64, usize)| e.1)
}

impl SpanStack {
    /// No open scopes.
    pub fn new() -> (r: SpanStack)
        ensures
            r.open@.len() == 0,
    {
        SpanStack { open: Vec::new() }
    }

    /// A span's scope began at `offset`.
    pub fn push(&mut self, id: u64, offset: usize)
        ensures
            final(self).open@ == old(self).open@.push((id, offset)),
    {
        self.open.push((id, offset));
    }

    /// End every open scope from the innermost down to and including span
    /// `id`, so the thread's depth still unwinds last-in first-out even when
    /// spans exit out of order. Returns the offsets to close, innermost
    /// first, and whether the exit was out of order (`id` was not
    /// innermost). A span that is not open closes nothing.
    pub fn close_through(&mut self, id: u64) -> (r: (Vec<usize>, bool))
        ensures
            ({
                let s = old(self).open@;
                let pos = spec_rposition(s, id);
                if pos < 0 {
                    &&& final(self).open@ == s
                    &&& r.0@.len() == 0
                    &&& !r.1
                } else {
                    &&& final(self).open@ == s.take(pos)
                    &&& r.0@ == spec_offsets_innermost_first(s, pos)
                    &&& r.1 == (pos + 1 != s.len())
                }
            }),
    {
        let ghost s = self.open@;
        proof {
            lemma_rposition(s, id);
        }
        let n = self.open.len();
        let mut j = n;
        while j > 0 && self.open[j - 1].0 != id
            invariant
                self.open@ == s,
                n == s.len(),
                j <= n,
                forall|k: int| j <= k < n ==> s[k].0 != id,
            decreases j,
        {
            j = j - 1;
        }
        proof {
            let p = spec_rposition(s, id);
            if j > 0 {
                if p > j - 1 {
                    assert(s[p].0 != id);
                }
                if p < j - 1 {
                    assert(s[j - 1].0 == id);
                }
            } else if p >= 0 {
                assert(s[p].0 != id);
            }
        }
        if j == 0 {
            return (Vec::new(), false);
        }
        let pos = j - 1;
        let out_of_order = pos + 1 != n;
        let mut offsets: Vec<usize> = Vec::new();
        let mut k = n;
        while k > pos
            invariant
                self.open@ == s.take(k as int),
                n == s.len(),
                pos < n,
                pos <= k <= n,
                offsets@ == s.skip(k as int).reverse().map_values(|e: (u64, usize)| e.1),
            decreases k,
        {
            let e = self.open.pop();
            let (_, off) = match e {
                Some(x) => x,
                None => {
                    assert(false);
                    (0, 0)
                },
            };
            proof {
                assert(s.take(k as int).last() == s[k - 1]);
                assert(self.open@ =~= s.take(k - 1));
            }
            offsets.push(off);
            proof {
                assert(s.skip(k - 1) =~= seq![s[k - 1]] + s.skip(k as int));
                assert(s.skip(k - 1).reverse() =~= s.skip(k as int).reverse().push(s[k - 1]));
                assert(offsets@ =~= s.skip(k - 1).reverse().map_values(|e: (u64, usize)| e.1));
            }
            k = k - 1;
        }
        (offsets, out_of_order)
    }
}

/// Entering a span and exiting it undoes the entry: the scope it opened is
/// the one closed, in order, and the stack is as before.
pub proof fn law_enter_then_exit_restores(s: Seq<(u64, usize)>, id: u64, offset: usize)
    ensures
        ({
            let t = s.push((id, offset));
            let pos = spec_rposition(t, id);
            &&& pos == s.len()
            &&& t.take(pos) == s
            &&& spec_offsets_innermost_first(t, pos) == seq![offset]
        }),
{
    let t = s.push((id, offset));
    assert(t.take(s.len() as int) =~= s);
    assert(t.skip(s.len() as int) =~= seq![(id, offset)]);
    assert(t.skip(s.len() as int).reverse() =~= seq![(id, offset)]);
    assert(spec_offsets_innermost_first(t, s.len() as int) =~= seq![offset]);
}

/// Closing through a span closes every scope opened after it, and no scope
/// of that span remains open above the rest.
pub proof fn law_close_through_unwinds(s: Seq<(u64, usize)>, id: u64)
    requires
        spec_rposition(s, id) >= 0,
    ensures
        ({
            let pos = spec_rposition(s, id);
            &&& spec_offsets_innermost_first(s, pos).len() == s.len() - pos
            &&& spec_offsets_innermost_first(s, pos)[0] == s.last().1
            &&& spec_offsets_innermost_first(s, pos).last() == s[pos].1
            &&& s.take(pos).len() == pos
        }),
{
    lemma_rposition(s, id);
}

/// Last position of `::` in `s`, or -1.
pub open spec fn spec_last_sep(s: Seq<char>) -> int
    decreases s.len(),
{
    if s.len() < 2 {
        -1
    } else if s[s.len() - 2] == ':' && s[s.len() - 1] == ':' {
        s.len() - 2
    } else {
        spec_last_sep(s.drop_last())
    }
}

/// The last `::`-separated segment of a module path.
pub open spec fn spec_tail_segment(s: Seq<char>) -> Seq<char> {
    let p = spec_last_sep(s);
    if p < 0 { s } else { s.skip(p + 2) }
}

/// The scope name for a span: `kind: tail` when the span carries a `name`
/// field (its last path segment), else just the span's kind.
pub open spec fn spec_scope_name(kind: Seq<char>, field: Option<Seq<char>>) -> Seq<char> {
    match field {
        Some(inner) => kind + ": "@ + spec_tail_segment(inner),
        None => kind,
    }
}

proof fn lemma_last_sep(s: Seq<char>)
    ensures
        -1 <= spec_last_sep(s),
        spec_last_sep(s) >= 0 ==> spec_last_sep(s) + 2 <= s.len(),
    decreases s.len(),
{
    if s.len() >= 2 && !(s[s.len() - 2] == ':' && s[s.len() - 1] == ':') {
        lemma_last_sep(s.drop_last());
    }
}

/// The resolved scope name for a span, e.g. `system` with the field
/// `bava::vis::bars::update_bars` gives `system: update_bars`: the tail
/// identifies the system and the span kind keeps the kind of work visible.
pub fn scope_name(kind: &str, field: &Option<String>) -> (r: String)
    ensures
        r@ == spec_scope_name(kind@, crate::config::opt_view(field)),
{
    let mut out = String::from_str(kind);
    match field {
        None => out,
        Some(inner) => {
            let c = chars_of(inner.as_str());
            let ghost s = c@;
            let n = c.len();
            let mut j = n;
            proof {
                lemma_last_sep(s);
            }
            assert(s.take(n as int) =~= s);
            while j >= 2 && !(c[j - 2] == ':' && c[j - 1] == ':')
                invariant
                    c@ == s,
                    n == s.len(),
                    j <= n,
                    spec_last_sep(s) == spec_last_sep(s.take(j as int)),
                decreases j,
            {
                assert(s.take(j as int).drop_last() =~= s.take(j - 1));
                assert(s.take(j as int)[j - 2] == s[j - 2] && s.take(j as int)[j - 1] == s[j - 1]);
                j = j - 1;
            }
            proof {
                if j >= 2 {
                    assert(s.take(j as int)[j - 2] == s[j - 2] && s.take(j as int)[j - 1] == s[j - 1]);
                }
            }
            let start: usize = if j >= 2 { j } else { 0 };
            let mut tail: Vec<char> = Vec::new();
            let mut i = start;
            while i < n
                invariant
                    c@ == s,
                    n == s.len(),
                    start <= i <= n,
                    tail@ == s.subrange(start as int, i as int),
                decreases n - i,
            {
                tail.push(c[i]);
                assert(s.subrange(start as int, i + 1) =~= s.subrange(start as int, i as int).push(s[i as int]));
                i = i + 1;
            }
            assert(tail@ =~= spec_tail_segment(s));
            out.append(": ");
            let t = string_from_chars(&tail);
            out.append(t.as_str());
            proof {
                reveal_strlit(": ");
            }
            out
        },
    }
}

/// Text cut to at most `max` characters, keeping the tail (scope names are
/// prefixed by module paths; the distinguishing part is at the end) behind a
/// leading `…`.
pub open spec fn spec_truncate(s: Seq<char>, max: nat) -> Seq<char> {
    if s.len() <= max {
        s
    } else {
        seq!['…'] + s.skip(s.len() - (max - 1))
    }
}

/// Cut `s` to at most `max` characters, keeping its tail.
pub fn truncate(s: &str, max: usize) -> (r: String)
    requires
        max >= 1 || s@.len() == 0,
    ensures
        r@ == spec_truncate(s@, max as nat),
        r@.len() <= max || s@.len() == 0,
{
    let c = chars_of(s);
    let n = c.len();
    if n <= max {
        return String::from_str(s);
    }
    let skip = n - (max - 1);
    let mut out: Vec<char> = Vec::new();
    out.push('…');
    let mut i = skip;
    assert(out@ =~= seq!['…'] + c@.subrange(skip as int, skip as int));
    while i < n
        invariant
            n == c@.len(),
            skip <= i <= n,
            out@ == seq!['…'] + c@.subrange(skip as int, i as int),
        decreases n - i,
    {
        out.push(c[i]);
        assert(c@.subrange(skip as int, i + 1) =~= c@.subrange(skip as int, i as int).push(c@[i as int]));
        i = i + 1;
    }
    assert(c@.subrange(skip as int, n as int) =~= c@.skip(skip as int));
    string_from_chars(&out)
}

/// Running totals for one scope since the last report.
#[derive(Clone, Copy, Debug, PartialEq, Eq)]
pub struct ScopeStats {
    /// Wall time inside the scope, children included (ns).
    pub total_ns: i64,
    /// Wall time inside the scope minus time in its children (ns).
    pub self_ns: i64,
    /// Slowest single occurrence (ns).
    pub max_ns: i64,
    /// Occurrences.
    pub calls: u64,
}

impl ScopeStats {
    /// No occurrences yet.
    pub fn new() -> (r: ScopeStats)
        ensures
            r == (ScopeStats { total_ns: 0, self_ns: 0, max_ns: 0, calls: 0 }),
    {
        ScopeStats { total_ns: 0, self_ns: 0, max_ns: 0, calls: 0 }
    }

    /// Count one occurrence lasting `duration_ns`, of which `children_ns` was
    /// spent in child scopes.
    pub fn record(&mut self, duration_ns: i64, children_ns: i64)
        requires
            i64::MIN <= old(self).total_ns + duration_ns <= i64::MAX,
            i64::MIN <= duration_ns - children_ns <= i64::MAX,
            i64::MIN <= old(self).self_ns + (duration_ns - children_ns) <= i64::MAX,
            old(self).calls < u64::MAX,
        ensures
            final(self).total_ns == old(self).total_ns + duration_ns,
            final(self).self_ns == old(self).self_ns + (duration_ns - children_ns),
            final(self).max_ns == (if old(self).max_ns < duration_ns { duration_ns } else { old(self).max_ns }),
            final(self).calls == old(self).calls + 1,
    {
        self.total_ns = self.total_ns + duration_ns;
        self.self_ns = self.self_ns + (duration_ns - children_ns);
        if self.max_ns < duration_ns {
            self.max_ns = duration_ns;
        }
        self.calls = self.calls + 1;
    }

    /// Fold another scope's totals into these (merging scopes that share a
    /// name across threads): sums, except the slowest occurrence, which is
    /// the larger of the two.
    pub fn merge(&mut self, other: &ScopeStats)
        requires
            i64::MIN <= old(self).total_ns + other.total_ns <= i64::MAX,
            i64::MIN <= old(self).self_ns + other.self_ns <= i64::MAX,
            old(self).calls + other.calls <= u64::MAX,
        ensures
            final(self).total_ns == old(self).total_ns + other.total_ns,
            final(self).self_ns == old(self).self_ns + other.self_ns,
            final(self).max_ns == (if old(self).max_ns < other.max_ns { other.max_ns } else { old(self).max_ns }),
            final(self).calls == old(self).calls + other.calls,
    {
        self.total_ns = self.total_ns + other.total_ns;
        self.self_ns = self.self_ns + other.self_ns;
        if self.max_ns < other.max_ns {
            self.max_ns = other.max_ns;
        }
        self.calls = self.calls + other.calls;
    }
}

/// Whether a report is due after `frames` frames with one every `every`.
pub fn report_due(frames: u64, every: u64) -> (r: bool)
    ensures
        r == (frames >= every),
{
    frames >= every
}

/// Most rows a report shows.
pub const REPORT_ROWS: usize = 25;

/// A report row by value: scope name and totals.
pub open spec fn row_view(r: (String, ScopeStats)) -> (Seq<char>, ScopeStats) {
    (r.0@, r.1)
}

/// Report rows by value.
pub open spec fn rows_view(rows: Seq<(String, ScopeStats)>) -> Seq<(Seq<char>, ScopeStats)> {
    rows.map_values(|r: (String, ScopeStats)| row_view(r))
}

/// Rows ordered by self time, slowest first.
pub open spec fn sorted_by_self_desc(s: Seq<(Seq<char>, ScopeStats)>) -> bool {
    forall|i: int, j: int| 0 <= i < j < s.len() ==> #[trigger] s[i].1.self_ns >= #[trigger] s[j].1.self_ns
}

/// The rows a report prints: the given rows ordered by self time, slowest
/// first, cut to at most `limit`.
pub fn top_rows(rows: &Vec<(String, ScopeStats)>, limit: usize) -> (r: Vec<(String, ScopeStats)>)
    ensures
        r.len() == (if rows.len() < limit { rows.len() } else { limit }),
        exists|s: Seq<(Seq<char>, ScopeStats)>|
            s.to_multiset() == rows_view(rows@).to_multiset()
            && sorted_by_self_desc(s)
            && #[trigger] rows_view(r@) == s.take(r.len() as int),
{
    broadcast use vstd::seq_lib::group_to_multiset_ensures;
    let n = rows.len();
    let ghost input = rows_view(rows@);
    let mut sorted: Vec<(String, ScopeStats)> = Vec::new();
    let mut i: usize = 0;
    while i < n
        invariant
            n == rows.len(),
            input == rows_view(rows@),
            0 <= i <= n,
            sorted.len() == i,
            rows_view(sorted@).to_multiset() == input.take(i as int).to_multiset(),
            sorted_by_self_desc(rows_view(sorted@)),
        decreases n - i,
    {
        let x = (rows[i].0.clone(), rows[i].1);
        let key = x.1.self_ns;
        let mut p: usize = 0;
        while p < sorted.len() && sorted[p].1.self_ns >= key
            invariant
                0 <= p <= sorted.len(),
                forall|j: int| 0 <= j < p ==> #[trigger] sorted@[j].1.self_ns >= key,
            decreases sorted.len() - p,
        {
            p = p + 1;
        }
        let ghost before = rows_view(sorted@);
        sorted.insert(p, x);
        proof {
            let after = rows_view(sorted@);
            assert(after =~= before.insert(p as int, row_view(x)));
            assert(input.take(i + 1) =~= input.take(i as int).push(input[i as int]));
            assert(row_view(x) == input[i as int]);
            vstd::seq_lib::to_multiset_insert(before, p as int, row_view(x));
            vstd::seq_lib::to_multiset_build(input.take(i as int), input[i as int]);
            assert forall|a: int, b: int| 0 <= a < b < after.len() implies
                #[trigger] after[a].1.self_ns >= #[trigger] after[b].1.self_ns by {
                if p < before.len() {
                    assert(before[p as int].1.self_ns < key);
                }
                if a < p && b == p {
                    assert(before[a].1.self_ns >= key);
                } else if a == p && b > p {
                    assert(before[p as int].1.self_ns >= before[b - 1].1.self_ns || b - 1 == p);
                }
            }
        }
        i = i + 1;
    }
    proof {
        assert(input.take(n as int) =~= input);
    }
    let ghost full = rows_view(sorted@);
    let keep = if n < limit { n } else { limit };
    sorted.truncate(keep);
    proof {
        assert(rows_view(sorted@) =~= full.take(keep as int));
    }
    sorted
}

/// Totals of the entries named `name`, as `(total, self, max, calls)`:
/// sums, except the slowest occurrence, which is the largest (and never
/// below zero, where the fold starts).
pub open spec fn spec_merged(entries: Seq<(Seq<char>, ScopeStats)>, name: Seq<char>) -> (int, int, int, int)
    decreases entries.len(),
{
    if entries.len() == 0 {
        (0, 0, 0, 0)
    } else {
        let f = spec_merged(entries.drop_last(), name);
        let e = entries.last();
        if e.0 == name {
            (f.0 + e.1.total_ns, f.1 + e.1.self_ns, if f.2 < e.1.max_ns { e.1.max_ns as int } else { f.2 }, f.3 + e.1.calls)
        } else {
            f
        }
    }
}

/// The four totals of a row.
pub open spec fn stats_tuple(s: ScopeStats) -> (int, int, int, int) {
    (s.total_ns as int, s.self_ns as int, s.max_ns as int, s.calls as int)
}

/// Sum of the magnitudes of the entries' total times.
pub open spec fn spec_abs_total(entries: Seq<(Seq<char>, ScopeStats)>) -> int
    decreases entries.len(),
{
    if entries.len() == 0 { 0 } else {
        let t = entries.last().1.total_ns;
        spec_abs_total(entries.drop_last()) + if t < 0 { -t } else { t as int }
    }
}

/// Sum of the magnitudes of the entries' self times.
pub open spec fn spec_abs_self(entries: Seq<(Seq<char>, ScopeStats)>) -> int
    decreases entries.len(),
{
    if entries.len() == 0 { 0 } else {
        let t = entries.last().1.self_ns;
        spec_abs_self(entries.drop_last()) + if t < 0 { -t } else { t as int }
    }
}

/// Sum of the entries' call counts.
pub open spec fn spec_calls_sum(entries: Seq<(Seq<char>, ScopeStats)>) -> int
    decreases entries.len(),
{
    if entries.len() == 0 { 0 } else { spec_calls_sum(entries.drop_last()) + entries.last().1.calls }
}

/// A name's merged totals are bounded by the sums over all entries, and its
/// slowest occurrence lies between zero and `i64::MAX`.
proof fn lemma_merged_bounds(entries: Seq<(Seq<char>, ScopeStats)>, name: Seq<char>)
    ensures
        -spec_abs_total(entries) <= spec_merged(entries, name).0 <= spec_abs_total(entries),
        -spec_abs_self(entries) <= spec_merged(entries, name).1 <= spec_abs_self(entries),
        0 <= spec_merged(entries, name).2 <= i64::MAX,
        0 <= spec_merged(entries, name).3 <= spec_calls_sum(entries),
        spec_abs_total(entries) >= 0,
        spec_abs_self(entries) >= 0,
        spec_calls_sum(entries) >= 0,
    decreases entries.len(),
{
    if entries.len() > 0 {
        lemma_merged_bounds(entries.drop_last(), name);
    }
}

/// Sums over a prefix never exceed those over the whole.
proof fn lemma_sums_grow(entries: Seq<(Seq<char>, ScopeStats)>, i: int)
    requires
        0 <= i <= entries.len(),
    ensures
        spec_abs_total(entries.take(i)) <= spec_abs_total(entries),
        spec_abs_self(entries.take(i)) <= spec_abs_self(entries),
        spec_calls_sum(entries.take(i)) <= spec_calls_sum(entries),
    decreases entries.len(),
{
    if i < entries.len() {
        assert(entries.drop_last().take(i) =~= entries.take(i));
        lemma_sums_grow(entries.drop_last(), i);
        lemma_merged_bounds(entries.drop_last(), Seq::empty());
    } else {
        assert(entries.take(i) =~= entries);
    }
}

/// Rows of `out` by name.
pub open spec fn row_names(out: Seq<(Seq<char>, ScopeStats)>) -> Seq<Seq<char>> {
    out.map_values(|r: (Seq<char>, ScopeStats)| r.0)
}

/// Scope names may repeat across threads; fold the entries into one row per
/// name. Each name of the input gets exactly one row, holding the merged
/// totals of all entries with that name.
pub fn merge_by_name(entries: &Vec<(String, ScopeStats)>) -> (r: Vec<(String, ScopeStats)>)
    requires
        spec_abs_total(rows_view(entries@)) <= i64::MAX,
        spec_abs_self(rows_view(entries@)) <= i64::MAX,
        spec_calls_sum(rows_view(entries@)) <= u64::MAX,
    ensures
        row_names(rows_view(r@)).no_duplicates(),
        forall|k: Seq<char>| #[trigger] row_names(rows_view(r@)).contains(k)
            <==> row_names(rows_view(entries@)).contains(k),
        forall|j: int| 0 <= j < r.len() ==>
            stats_tuple(#[trigger] r@[j].1) == spec_merged(rows_view(entries@), r@[j].0@),
{
    let n = entries.len();
    let ghost input = rows_view(entries@);
    let mut out: Vec<(String, ScopeStats)> = Vec::new();
    let mut i: usize = 0;
    while i < n
        invariant
            n == entries.len(),
            input == rows_view(entries@),
            0 <= i <= n,
            spec_abs_total(input) <= i64::MAX,
            spec_abs_self(input) <= i64::MAX,
            spec_calls_sum(input) <= u64::MAX,
            row_names(rows_view(out@)).no_duplicates(),
            forall|k: Seq<char>| #[trigger] row_names(rows_view(out@)).contains(k)
                <==> row_names(input.take(i as int)).contains(k),
            forall|j: int| 0 <= j < out.len() ==>
                stats_tuple(#[trigger] out@[j].1) == spec_merged(input.take(i as int), out@[j].0@),
        decreases n - i,
    {
        let name = entries[i].0.clone();
        let e = entries[i].1;
        let ghost pre = input.take(i as int);
        let ghost post = input.take(i + 1);
        let ghost names_before = row_names(rows_view(out@));
        proof {
            assert(post.drop_last() =~= pre);
            assert(post.last() == input[i as int]);
            assert(input[i as int] == (name@, e));
            lemma_sums_grow(input, i + 1);
        }
        let mut j: usize = 0;
        while j < out.len() && !out[j].0.eq(&name)
            invariant
                0 <= j <= out.len(),
                forall|t: int| 0 <= t < j ==> #[trigger] out@[t].0@ != name@,
            decreases out.len() - j,
        {
            j = j + 1;
        }
        if j < out.len() {
            let mut st = out[j].1;
            proof {
                lemma_merged_bounds(post, name@);
                lemma_merged_bounds(pre, name@);
            }
            st.merge(&e);
            let row = (out[j].0.clone(), st);
            let ghost before = out@;
            out.set(j, row);
            proof {
                assert(rows_view(out@) =~= rows_view(before).update(j as int, (name@, st)));
                assert(row_names(rows_view(out@)) =~= names_before);
                assert forall|k: Seq<char>| #[trigger] row_names(rows_view(out@)).contains(k)
                    <==> row_names(post).contains(k) by {
                    if row_names(pre).contains(k) {
                        let t = choose|t: int| 0 <= t < pre.len() && row_names(pre)[t] == k;
                        assert(row_names(post)[t] == k);
                    }
                    if row_names(post).contains(k) && k != name@ {
                        let t = choose|t: int| 0 <= t < post.len() && row_names(post)[t] == k;
                        assert(t < pre.len());
                        assert(row_names(pre)[t] == k);
                    }
                    if k == name@ {
                        assert(row_names(post)[i as int] == k);
                        assert(row_names(rows_view(out@))[j as int] == k);
                    }
                }
                assert forall|t: int| 0 <= t < out.len() implies
                    stats_tuple(#[trigger] out@[t].1) == spec_merged(post, out@[t].0@) by {
                    if t != j {
                        assert(out@[t] == before[t]);
                        assert(names_before[t] == before[t].0@);
                        assert(names_before[j as int] == name@);
                        assert(before[t].0@ != name@);
                    }
                }
            }
        } else {
            let mut st = ScopeStats::new();
            proof {
                lemma_merged_bounds(post, name@);
                assert(!row_names(rows_view(out@)).contains(name@)) by {
                    if row_names(rows_view(out@)).contains(name@) {
                        let t = choose|t: int| 0 <= t < out.len() && row_names(rows_view(out@))[t] == name@;
                        assert(out@[t].0@ == name@);
                    }
                }
                lemma_merged_absent(pre, name@);
            }
            st.merge(&e);
            let ghost before = out@;
            out.push((name, st));
            proof {
                assert(rows_view(out@) =~= rows_view(before).push((name@, st)));
                assert(row_names(rows_view(out@)) =~= names_before.push(name@));
                assert(row_names(post) =~= row_names(pre).push(name@));
                lemma_push_contains(names_before, name@);
                lemma_push_contains(row_names(pre), name@);
                assert forall|t: int| 0 <= t < out.len() implies
                    stats_tuple(#[trigger] out@[t].1) == spec_merged(post, out@[t].0@) by {
                    if t < before.len() {
                        assert(out@[t] == before[t]);
                        assert(names_before[t] == before[t].0@);
                        assert(before[t].0@ != name@);
                    }
                }
            }
        }
        i = i + 1;
    }
    proof {
        assert(input.take(n as int) =~= input);
    }
    out
}

/// A sequence grown by one holds exactly what it held and the new item.
proof fn lemma_push_contains(s: Seq<Seq<char>>, x: Seq<char>)
    ensures
        forall|k: Seq<char>| #[trigger] s.push(x).contains(k) <==> (s.contains(k) || k == x),
{
    assert forall|k: Seq<char>| #[trigger] s.push(x).contains(k) <==> (s.contains(k) || k == x) by {
        if s.contains(k) {
            let t = choose|t: int| 0 <= t < s.len() && s[t] == k;
            assert(s.push(x)[t] == k);
        }
        if k == x {
            assert(s.push(x)[s.len() as int] == k);
        }
        if s.push(x).contains(k) && k != x {
            let t = choose|t: int| 0 <= t < s.len() + 1 && s.push(x)[t] == k;
            assert(s[t] == k);
        }
    }
}

/// A name with no entries has the starting totals.
proof fn lemma_merged_absent(entries: Seq<(Seq<char>, ScopeStats)>, name: Seq<char>)
    requires
        !row_names(entries).contains(name),
    ensures
        spec_merged(entries, name) == (0int, 0int, 0int, 0int),
    decreases entries.len(),
{
    if entries.len() > 0 {
        let l = entries.len() - 1;
        assert(row_names(entries)[l] == entries.last().0);
        assert(row_names(entries.drop_last()) =~= row_names(entries).drop_last());
        if row_names(entries.drop_last()).contains(name) {
            let t = choose|t: int| 0 <= t < l && row_names(entries.drop_last())[t] == name;
            assert(row_names(entries)[t] == name);
        }
        lemma_merged_absent(entries.drop_last(), name);
    }
}

} // verus!
