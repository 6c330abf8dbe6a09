//! Liveness classification.
//!
//! A PO key is **Alive** when a whitelist entry, a literal, or a guard matches
//! one of its forms (msgid, or msgid_plural); precedence is Whitelist >
//! Literal > Guard, and the reason travels as `alive_via`. Failing those, a key
//! is **Suspect** when one of its forms still appears verbatim as a source
//! string literal somewhere (likely dispatched dynamically) — not a confirmed
//! reference, but not `Dead` either. Only a key with no reference of any kind
//! is **Dead**. The per-language blind summary travels alongside.

use vstd::prelude::*;

use crate::extract::{spec_insert_str, ExtractResult, insert_string};
use crate::guard::{guards_view, spec_guard_matches, Guard, GuardPos};
use crate::po::{keys_view, KeyView, PoIndex, PoKey};
use crate::order::{spec_text_lt, text_lt};
use crate::text::{contains_string, str_eq, strings_view};

verus! {

/// Why a key is considered alive. Precedence: Whitelist > Literal > Guard.
#[derive(Debug, Clone, Copy, PartialEq, Eq, Structural)]
pub enum AliveVia {
    Literal,
    Guard,
    Whitelist,
}

/// A key's liveness status.
#[derive(Debug, Clone, Copy, PartialEq, Eq, Structural)]
pub enum Status {
    Alive(AliveVia),
    /// Not referenced by any modeled call, but the msgid appears verbatim as a
    /// source string literal — likely dispatched dynamically.
    Suspect,
    Dead,
}

/// The verdict for a single PO key.
#[derive(Debug, Clone, PartialEq, Eq)]
pub struct KeyVerdict {
    pub key: PoKey,
    pub status: Status,
}

impl View for KeyVerdict {
    type V = (KeyView, Status);

    open spec fn view(&self) -> (KeyView, Status) {
        (self.key@, self.status)
    }
}

/// The views of a sequence of verdicts.
pub open spec fn verdicts_view(v: Seq<KeyVerdict>) -> Seq<(KeyView, Status)> {
    v.map_values(|x: KeyVerdict| x@)
}

/// Blind call-site counts per language label, as `(label, count)` entries.
pub open spec fn blind_view(b: Seq<(String, usize)>) -> Seq<(Seq<char>, nat)> {
    b.map_values(|x: (String, usize)| (x.0@, x.1 as nat))
}

/// The count recorded for `label`: the first entry carrying it.
pub open spec fn spec_blind_get(b: Seq<(Seq<char>, nat)>, label: Seq<char>) -> Option<nat>
    decreases b.len(),
{
    if b.len() == 0 {
        None
    } else if b[0].0 == label {
        Some(b[0].1)
    } else {
        spec_blind_get(b.drop_first(), label)
    }
}

/// The sum of all blind counts.
pub open spec fn spec_blind_total(b: Seq<(Seq<char>, nat)>) -> nat
    decreases b.len(),
{
    if b.len() == 0 {
        0
    } else {
        b[0].1 + spec_blind_total(b.drop_first())
    }
}

/// `a + b`, capped at `usize::MAX`.
pub open spec fn spec_capped_sum(a: nat, b: nat) -> nat {
    if a + b > usize::MAX {
        usize::MAX as nat
    } else {
        a + b
    }
}

/// Add `n` blind sites to `label`'s entry (a count that would pass
/// `usize::MAX` stays there), creating it, in label order, when absent.
pub open spec fn spec_blind_add(b: Seq<(Seq<char>, nat)>, label: Seq<char>, n: nat) -> Seq<
    (Seq<char>, nat),
>
    decreases b.len(),
{
    if b.len() == 0 {
        seq![(label, n)]
    } else if b[0].0 == label {
        b.update(0, (label, spec_capped_sum(b[0].1, n)))
    } else if spec_text_lt(label, b[0].0) {
        seq![(label, n)] + b
    } else {
        seq![b[0]] + spec_blind_add(b.drop_first(), label, n)
    }
}

/// Aggregated translation usage across all scanned source files. The string
/// lists are read as sets.
#[derive(Debug, Default)]
pub struct Usage {
    pub literals: Vec<String>,
    pub guards: Vec<Guard>,
    /// Blind call-site counts per language family label.
    pub blind: Vec<(String, usize)>,
    /// Every static string literal seen anywhere in the scanned source.
    pub source_literals: Vec<String>,
}

/// Fold a sequence of strings into another one, set-wise.
pub open spec fn spec_union_strs(a: Seq<Seq<char>>, b: Seq<Seq<char>>) -> Seq<Seq<char>>
    decreases b.len(),
{
    if b.len() == 0 {
        a
    } else {
        spec_union_strs(spec_insert_str(a, b[0]), b.drop_first())
    }
}

/// The mathematical value of a usage aggregate: literal keys, guards, blind
/// counts per label, and source literals.
pub type UsageView = (Seq<Seq<char>>, Seq<(GuardPos, Seq<char>)>, Seq<(Seq<char>, nat)>, Seq<Seq<char>>);

impl View for Usage {
    type V = UsageView;

    open spec fn view(&self) -> UsageView {
        (
            strings_view(self.literals@),
            guards_view(self.guards@),
            blind_view(self.blind@),
            strings_view(self.source_literals@),
        )
    }
}

/// Fold one file's result into a usage aggregate, attributing its blind sites
/// to `label`.
pub open spec fn spec_usage_add(u: UsageView, label: Seq<char>, r: crate::extract::ExtractView) -> UsageView {
    (
        spec_union_strs(u.0, r.0),
        u.1 + r.1,
        if r.2 > 0 {
            spec_blind_add(u.2, label, r.2)
        } else {
            u.2
        },
        spec_union_strs(u.3, r.3),
    )
}

impl Usage {
    /// An empty aggregate.
    pub fn new() -> (r: Usage)
        ensures
            r.literals@.len() == 0,
            r.guards@.len() == 0,
            r.blind@.len() == 0,
            r.source_literals@.len() == 0,
    {
        Usage { literals: Vec::new(), guards: Vec::new(), blind: Vec::new(), source_literals: Vec::new() }
    }

    /// Fold one file's extraction result into the aggregate, attributing its
    /// blind sites to the given language family label.
    pub fn add(&mut self, lang_label: &str, result: ExtractResult)
        ensures
            strings_view(final(self).literals@) == spec_union_strs(
                strings_view(old(self).literals@),
                result@.0,
            ),
            guards_view(final(self).guards@) == guards_view(old(self).guards@) + result@.1,
            blind_view(final(self).blind@) == (if result.blind > 0 {
                spec_blind_add(blind_view(old(self).blind@), lang_label@, result.blind as nat)
            } else {
                blind_view(old(self).blind@)
            }),
            strings_view(final(self).source_literals@) == spec_union_strs(
                strings_view(old(self).source_literals@),
                result@.3,
            ),
    {
        let ExtractResult { literals, guards, blind, source_literals } = result;
        union_into(&mut self.literals, &literals);
        let ghost before = self.guards@;
        let mut gs = guards;
        let ghost gv = gs@;
        self.guards.append(&mut gs);
        proof {
            assert(guards_view(self.guards@) =~= guards_view(before) + guards_view(gv));
        }
        if blind > 0 {
            blind_add(&mut self.blind, lang_label, blind);
        }
        union_into(&mut self.source_literals, &source_literals);
    }
}

/// Insert every string of `extra` into `v`, set-wise.
pub fn union_into(v: &mut Vec<String>, extra: &Vec<String>)
    ensures
        strings_view(final(v)@) == spec_union_strs(strings_view(old(v)@), strings_view(extra@)),
{
    let mut i: usize = 0;
    proof {
        assert(strings_view(extra@).skip(0) =~= strings_view(extra@));
    }
    while i < extra.len()
        invariant
            i <= extra.len(),
            spec_union_strs(strings_view(old(v)@), strings_view(extra@)) == spec_union_strs(
                strings_view(v@),
                strings_view(extra@).skip(i as int),
            ),
        decreases extra.len() - i,
    {
        let ghost rest = strings_view(extra@).skip(i as int);
        proof {
            assert(rest[0] == extra@[i as int]@);
            assert(rest.drop_first() =~= strings_view(extra@).skip(i + 1));
        }
        insert_string(v, extra[i].clone());
        i = i + 1;
    }
    proof {
        assert(strings_view(extra@).skip(i as int).len() == 0);
    }
}

/// Add `n` to `label`'s blind count.
pub fn blind_add(b: &mut Vec<(String, usize)>, label: &str, n: usize)
    ensures
        blind_view(final(b)@) == spec_blind_add(blind_view(old(b)@), label@, n as nat),
{
    let ghost bv = blind_view(b@);
    let mut i: usize = 0;
    assert(bv.skip(0) =~= bv);
    assert(bv.take(0) + spec_blind_add(bv, label@, n as nat) =~= spec_blind_add(bv, label@, n as nat));
    while i < b.len()
        invariant
            bv == blind_view(old(b)@),
            b@ == old(b)@,
            i <= b.len(),
            forall|k: int| 0 <= k < i ==> bv[k].0 != label@,
            spec_blind_get(bv, label@) == spec_blind_get(bv.skip(i as int), label@),
            spec_blind_add(bv, label@, n as nat) == bv.take(i as int) + spec_blind_add(
                bv.skip(i as int),
                label@,
                n as nat,
            ),
        decreases b.len() - i,
    {
        proof {
            assert(bv.skip(i as int)[0] == bv[i as int]);
            assert(bv.skip(i as int).drop_first() =~= bv.skip(i + 1));
        }
        if str_eq(b[i].0.as_str(), label) {
            let c = b[i].1;
            assert(bv[i as int] == (b@[i as int].0@, c as nat));
            assert(spec_blind_get(bv.skip(i as int), label@) == Some(c as nat));
            let name = b[i].0.clone();
            b.set(i, (name, c.saturating_add(n)));
            proof {
                assert(blind_view(b@) =~= bv.take(i as int) + bv.skip(i as int).update(
                    0,
                    (label@, spec_capped_sum(bv[i as int].1, n as nat)),
                ));
            }
            return;
        }
        if text_lt(label, b[i].0.as_str()) {
            assert(bv[i as int] == (b@[i as int].0@, b@[i as int].1 as nat));
            b.insert(i, (label.to_owned(), n));
            proof {
                assert(blind_view(b@) =~= bv.take(i as int) + (seq![(label@, n as nat)] + bv.skip(
                    i as int,
                )));
            }
            return;
        }
        proof {
            assert(bv.take(i + 1) =~= bv.take(i as int).push(bv[i as int]));
            assert(bv.take(i as int) + (seq![bv[i as int]] + spec_blind_add(
                bv.skip(i + 1),
                label@,
                n as nat,
            )) =~= bv.take(i + 1) + spec_blind_add(bv.skip(i + 1), label@, n as nat));
        }
        i = i + 1;
    }
    let ghost before = b@;
    b.push((label.to_owned(), n));
    proof {
        assert(bv.skip(i as int).len() == 0);
        assert(bv.take(i as int) =~= bv);
        assert(blind_view(b@) =~= blind_view(before).push((label@, n as nat)));
        assert(blind_view(b@) =~= bv + seq![(label@, n as nat)]);
    }
}

/// The full liveness result: per-key verdicts plus the blind summary.
#[derive(Debug)]
pub struct LivenessReport {
    pub verdicts: Vec<KeyVerdict>,
    pub blind: Vec<(String, usize)>,
}

/// How many verdicts carry status `s`.
pub open spec fn spec_count_status(v: Seq<(KeyView, Status)>, s: Status) -> nat
    decreases v.len(),
{
    if v.len() == 0 {
        0
    } else {
        spec_count_status(v.drop_last(), s) + if v.last().1 == s { 1nat } else { 0nat }
    }
}

/// How many verdicts are alive, whatever the reason.
pub open spec fn spec_count_alive(v: Seq<(KeyView, Status)>) -> nat
    decreases v.len(),
{
    if v.len() == 0 {
        0
    } else {
        spec_count_alive(v.drop_last()) + if v.last().1 is Alive { 1nat } else { 0nat }
    }
}

/// The verdicts with status `s`, in order.
pub open spec fn spec_with_status(v: Seq<(KeyView, Status)>, s: Status) -> Seq<(KeyView, Status)>
    decreases v.len(),
{
    if v.len() == 0 {
        Seq::empty()
    } else {
        let before = spec_with_status(v.drop_last(), s);
        if v.last().1 == s {
            before.push(v.last())
        } else {
            before
        }
    }
}

/// Every verdict is alive, suspect, or dead: the three counts add up.
pub proof fn lemma_counts_partition(v: Seq<(KeyView, Status)>)
    ensures
        spec_count_alive(v) + spec_count_status(v, Status::Suspect) + spec_count_status(
            v,
            Status::Dead,
        ) == v.len(),
        spec_with_status(v, Status::Dead).len() == spec_count_status(v, Status::Dead),
        spec_with_status(v, Status::Suspect).len() == spec_count_status(v, Status::Suspect),
    decreases v.len(),
{
    if v.len() > 0 {
        lemma_counts_partition(v.drop_last());
    }
}

impl LivenessReport {
    /// The verdicts with status `s`, in classification order.
    fn with_status(&self, s: Status) -> (r: Vec<KeyVerdict>)
        ensures
            verdicts_view(r@) == spec_with_status(verdicts_view(self.verdicts@), s),
    {
        let ghost vv = verdicts_view(self.verdicts@);
        let mut out: Vec<KeyVerdict> = Vec::new();
        let mut i: usize = 0;
        while i < self.verdicts.len()
            invariant
                vv == verdicts_view(self.verdicts@),
                i <= self.verdicts.len(),
                verdicts_view(out@) == spec_with_status(vv.take(i as int), s),
            decreases self.verdicts.len() - i,
        {
            proof {
                assert(vv.take(i + 1).drop_last() =~= vv.take(i as int));
                assert(vv.take(i + 1).last() == vv[i as int]);
            }
            let v = &self.verdicts[i];
            if v.status == s {
                let ghost before = out@;
                let c = KeyVerdict { key: v.key.copy(), status: v.status };
                out.push(c);
                assert(verdicts_view(out@) =~= verdicts_view(before).push(c@));
            }
            i = i + 1;
        }
        assert(vv.take(self.verdicts.len() as int) =~= vv);
        out
    }

    /// How many verdicts carry status `s`.
    fn count_status(&self, s: Status) -> (r: usize)
        ensures
            r == spec_count_status(verdicts_view(self.verdicts@), s),
    {
        let ghost vv = verdicts_view(self.verdicts@);
        let mut n: usize = 0;
        let mut i: usize = 0;
        while i < self.verdicts.len()
            invariant
                vv == verdicts_view(self.verdicts@),
                i <= self.verdicts.len(),
                n == spec_count_status(vv.take(i as int), s),
                n <= i,
            decreases self.verdicts.len() - i,
        {
            proof {
                assert(vv.take(i + 1).drop_last() =~= vv.take(i as int));
                assert(vv.take(i + 1).last() == vv[i as int]);
            }
            if self.verdicts[i].status == s {
                n = n + 1;
            }
            i = i + 1;
        }
        assert(vv.take(self.verdicts.len() as int) =~= vv);
        n
    }

    /// Dead keys, in the order keys were classified.
    pub fn dead(&self) -> (r: Vec<KeyVerdict>)
        ensures
            verdicts_view(r@) == spec_with_status(verdicts_view(self.verdicts@), Status::Dead),
    {
        self.with_status(Status::Dead)
    }

    /// Suspect keys (literal present in source, but no modeled call).
    pub fn suspect(&self) -> (r: Vec<KeyVerdict>)
        ensures
            verdicts_view(r@) == spec_with_status(verdicts_view(self.verdicts@), Status::Suspect),
    {
        self.with_status(Status::Suspect)
    }

    /// Number of dead keys.
    pub fn dead_count(&self) -> (r: usize)
        ensures
            r == spec_count_status(verdicts_view(self.verdicts@), Status::Dead),
    {
        self.count_status(Status::Dead)
    }

    /// Number of suspect keys.
    pub fn suspect_count(&self) -> (r: usize)
        ensures
            r == spec_count_status(verdicts_view(self.verdicts@), Status::Suspect),
    {
        self.count_status(Status::Suspect)
    }

    /// Number of alive keys: everything neither dead nor suspect.
    pub fn alive_count(&self) -> (r: usize)
        ensures
            r == spec_count_alive(verdicts_view(self.verdicts@)),
            r == self.verdicts@.len() - spec_count_status(verdicts_view(self.verdicts@), Status::Dead)
                - spec_count_status(verdicts_view(self.verdicts@), Status::Suspect),
    {
        let d = self.dead_count();
        let s = self.suspect_count();
        proof {
            lemma_counts_partition(verdicts_view(self.verdicts@));
        }
        self.verdicts.len() - d - s
    }

    /// Total blind call sites across all languages.
    pub fn total_blind(&self) -> (r: usize)
        requires
            spec_blind_total(blind_view(self.blind@)) <= usize::MAX,
        ensures
            r == spec_blind_total(blind_view(self.blind@)),
    {
        let ghost bv = blind_view(self.blind@);
        let mut total: usize = 0;
        let mut i: usize = self.blind.len();
        proof {
            assert(bv.skip(i as int).len() == 0);
        }
        while i > 0
            invariant
                bv == blind_view(self.blind@),
                i <= self.blind.len(),
                total == spec_blind_total(bv.skip(i as int)),
                spec_blind_total(bv) <= usize::MAX,
            decreases i,
        {
            proof {
                assert(bv.skip(i - 1).drop_first() =~= bv.skip(i as int));
                assert(bv.skip(i - 1)[0] == bv[i - 1]);
                lemma_total_prefix_bound(bv, i - 1);
            }
            total = total + self.blind[i - 1].1;
            i = i - 1;
        }
        assert(bv.skip(0) =~= bv);
        total
    }

    /// The blind count recorded for a language label, if any.
    pub fn blind_get(&self, label: &str) -> (r: Option<usize>)
        ensures
            match r {
                Some(c) => spec_blind_get(blind_view(self.blind@), label@) == Some(c as nat),
                None => spec_blind_get(blind_view(self.blind@), label@) is None,
            },
    {
        let ghost bv = blind_view(self.blind@);
        let mut i: usize = 0;
        assert(bv.skip(0) =~= bv);
        while i < self.blind.len()
            invariant
                bv == blind_view(self.blind@),
                i <= self.blind.len(),
                spec_blind_get(bv, label@) == spec_blind_get(bv.skip(i as int), label@),
            decreases self.blind.len() - i,
        {
            proof {
                assert(bv.skip(i as int)[0] == bv[i as int]);
                assert(bv.skip(i as int).drop_first() =~= bv.skip(i + 1));
            }
            if str_eq(self.blind[i].0.as_str(), label) {
                assert(bv[i as int] == (self.blind@[i as int].0@, self.blind@[i as int].1 as nat));
                return Some(self.blind[i].1);
            }
            i = i + 1;
        }
        None
    }
}

/// A suffix's total never exceeds the whole total.
proof fn lemma_total_prefix_bound(b: Seq<(Seq<char>, nat)>, i: int)
    requires
        0 <= i <= b.len(),
    ensures
        spec_blind_total(b.skip(i)) <= spec_blind_total(b),
    decreases i,
{
    if i > 0 {
        lemma_total_prefix_bound(b.drop_first(), i - 1);
        assert(b.drop_first().skip(i - 1) =~= b.skip(i));
    } else {
        assert(b.skip(0) =~= b);
    }
}

/// One of the key's forms (msgid, or msgid_plural when present) is in `set`.
pub open spec fn spec_form_in(k: KeyView, set: Seq<Seq<char>>) -> bool {
    set.contains(k.1) || match k.2 {
        Some(p) => set.contains(p),
        None => false,
    }
}

/// Some guard matches one of the key's forms.
pub open spec fn spec_guard_hit(k: KeyView, guards: Seq<(GuardPos, Seq<char>)>) -> bool {
    exists|i: int|
        0 <= i < guards.len() && (spec_guard_matches(#[trigger] guards[i], k.1) || match k.2 {
            Some(p) => spec_guard_matches(guards[i], p),
            None => false,
        })
}

/// The status of one key, by precedence: whitelist, literal, guard, source
/// literal, otherwise dead.
pub open spec fn spec_status(
    k: KeyView,
    whitelist: Seq<Seq<char>>,
    literals: Seq<Seq<char>>,
    guards: Seq<(GuardPos, Seq<char>)>,
    source_literals: Seq<Seq<char>>,
) -> Status {
    if spec_form_in(k, whitelist) {
        Status::Alive(AliveVia::Whitelist)
    } else if spec_form_in(k, literals) {
        Status::Alive(AliveVia::Literal)
    } else if spec_guard_hit(k, guards) {
        Status::Alive(AliveVia::Guard)
    } else if spec_form_in(k, source_literals) {
        Status::Suspect
    } else {
        Status::Dead
    }
}

/// The status of a key under a whitelist and an aggregated usage.
pub open spec fn spec_status_of(k: KeyView, whitelist: Seq<Seq<char>>, usage: &Usage) -> Status {
    spec_status(
        k,
        whitelist,
        strings_view(usage.literals@),
        guards_view(usage.guards@),
        strings_view(usage.source_literals@),
    )
}

/// Whether one of the key's forms is in a list of strings.
fn form_in(key: &PoKey, set: &Vec<String>) -> (r: bool)
    ensures
        r == spec_form_in(key@, strings_view(set@)),
{
    contains_string(set.as_slice(), &key.msgid) || match &key.msgid_plural {
        Some(p) => contains_string(set.as_slice(), p),
        None => false,
    }
}

/// Whether some guard matches one of the key's forms.
fn guard_hit(key: &PoKey, guards: &Vec<Guard>) -> (r: bool)
    ensures
        r == spec_guard_hit(key@, guards_view(guards@)),
{
    let ghost gv = guards_view(guards@);
    let mut i: usize = 0;
    while i < guards.len()
        invariant
            gv == guards_view(guards@),
            i <= guards.len(),
            forall|j: int|
                0 <= j < i ==> !(spec_guard_matches(#[trigger] gv[j], key@.1) || match key@.2 {
                    Some(p) => spec_guard_matches(gv[j], p),
                    None => false,
                }),
        decreases guards.len() - i,
    {
        let g = &guards[i];
        assert(gv[i as int] == g@);
        let hit = g.matches(key.msgid.as_str()) || match &key.msgid_plural {
            Some(p) => g.matches(p.as_str()),
            None => false,
        };
        if hit {
            return true;
        }
        i = i + 1;
    }
    false
}

/// Classify one key.
fn classify_key(key: &PoKey, usage: &Usage, whitelist: &Vec<String>) -> (r: Status)
    ensures
        r == spec_status_of(key@, strings_view(whitelist@), usage),
{
    if form_in(key, whitelist) {
        return Status::Alive(AliveVia::Whitelist);
    }
    if form_in(key, &usage.literals) {
        return Status::Alive(AliveVia::Literal);
    }
    if guard_hit(key, &usage.guards) {
        return Status::Alive(AliveVia::Guard);
    }
    if form_in(key, &usage.source_literals) {
        return Status::Suspect;
    }
    Status::Dead
}

/// A copy of a blind summary.
pub fn copy_blind(b: &Vec<(String, usize)>) -> (r: Vec<(String, usize)>)
    ensures
        blind_view(r@) == blind_view(b@),
{
    let mut out: Vec<(String, usize)> = Vec::new();
    let mut i: usize = 0;
    while i < b.len()
        invariant
            i <= b.len(),
            blind_view(out@) == blind_view(b@).take(i as int),
        decreases b.len() - i,
    {
        let ghost before = out@;
        let e = (b[i].0.clone(), b[i].1);
        out.push(e);
        assert(blind_view(out@) =~= blind_view(before).push((e.0@, e.1 as nat)));
        assert(blind_view(out@) =~= blind_view(b@).take(i + 1));
        i = i + 1;
    }
    assert(blind_view(b@).take(b.len() as int) =~= blind_view(b@));
    out
}

/// Classify every key in the universe against the aggregated usage: one
/// verdict per key, in universe order (so no key is judged twice), plus the
/// usage's blind summary.
pub fn classify(index: &PoIndex, usage: &Usage, whitelist: &Vec<String>) -> (r: LivenessReport)
    ensures
        r.verdicts@.len() == index@.len(),
        forall|i: int, j: int|
            0 <= i < j < r.verdicts@.len() ==> #[trigger] verdicts_view(r.verdicts@)[i].0
                != #[trigger] verdicts_view(r.verdicts@)[j].0,
        forall|i: int|
            0 <= i < index@.len() ==> #[trigger] verdicts_view(r.verdicts@)[i] == (
                index@[i],
                spec_status_of(index@[i], strings_view(whitelist@), usage),
            ),
        blind_view(r.blind@) == blind_view(usage.blind@),
{
    let keys = index.keys();
    let mut verdicts: Vec<KeyVerdict> = Vec::new();
    let mut i: usize = 0;
    while i < keys.len()
        invariant
            keys_view(keys@) == index@,
            i <= keys.len(),
            verdicts@.len() == i,
            forall|j: int|
                0 <= j < i ==> #[trigger] verdicts_view(verdicts@)[j] == (
                    index@[j],
                    spec_status_of(index@[j], strings_view(whitelist@), usage),
                ),
        decreases keys.len() - i,
    {
        let key = &keys[i];
        assert(index@[i as int] == key@);
        let status = classify_key(key, usage, whitelist);
        let ghost before = verdicts@;
        verdicts.push(KeyVerdict { key: key.copy(), status });
        proof {
            assert forall|j: int| 0 <= j <= i implies #[trigger] verdicts_view(verdicts@)[j] == (
                index@[j],
                spec_status_of(index@[j], strings_view(whitelist@), usage),
            ) by {
                assert(verdicts_view(verdicts@)[j] == verdicts@[j]@);
                if j < i {
                    assert(verdicts@[j] == before[j]);
                    assert(verdicts_view(before)[j] == before[j]@);
                }
            }
        }
        i = i + 1;
    }
    LivenessReport { verdicts, blind: copy_blind(&usage.blind) }
}

/// Classification, as the documentation describes it: a key is alive exactly
/// when one of its forms is whitelisted, used as a literal key, or matched by
/// a guard — and then the reason is the first of those, in that order; it is
/// suspect exactly when it is not alive but one of its forms appears as a
/// source literal; otherwise it is dead.
pub proof fn lemma_status_precedence(
    k: KeyView,
    whitelist: Seq<Seq<char>>,
    literals: Seq<Seq<char>>,
    guards: Seq<(GuardPos, Seq<char>)>,
    source_literals: Seq<Seq<char>>,
)
    ensures
        spec_status(k, whitelist, literals, guards, source_literals) is Alive <==> (spec_form_in(
            k,
            whitelist,
        ) || spec_form_in(k, literals) || spec_guard_hit(k, guards)),
        spec_form_in(k, whitelist) ==> spec_status(k, whitelist, literals, guards, source_literals)
            == Status::Alive(AliveVia::Whitelist),
        spec_status(k, whitelist, literals, guards, source_literals) == Status::Suspect <==> (
        !spec_form_in(k, whitelist) && !spec_form_in(k, literals) && !spec_guard_hit(k, guards)
            && spec_form_in(k, source_literals)),
        spec_status(k, whitelist, literals, guards, source_literals) == Status::Dead <==> (
        !spec_form_in(k, whitelist) && !spec_form_in(k, literals) && !spec_guard_hit(k, guards)
            && !spec_form_in(k, source_literals)),
{
}

/// How strongly a status keeps a key: dead, then suspect, then alive.
pub open spec fn spec_keep_rank(s: Status) -> int {
    match s {
        Status::Dead => 0,
        Status::Suspect => 1,
        Status::Alive(_) => 2,
    }
}

/// Every string of `a` is in `b`.
pub open spec fn spec_strs_within(a: Seq<Seq<char>>, b: Seq<Seq<char>>) -> bool {
    forall|s: Seq<char>| a.contains(s) ==> #[trigger] b.contains(s)
}

/// More evidence never demotes a key: with at least the same whitelist,
/// literal keys, guards and source literals, a key's status keeps it at least
/// as strongly (a dead key may become suspect or alive; an alive or suspect
/// key never becomes dead).
pub proof fn lemma_more_usage_never_demotes(
    k: KeyView,
    whitelist: Seq<Seq<char>>,
    literals: Seq<Seq<char>>,
    guards: Seq<(GuardPos, Seq<char>)>,
    source_literals: Seq<Seq<char>>,
    whitelist2: Seq<Seq<char>>,
    literals2: Seq<Seq<char>>,
    guards2: Seq<(GuardPos, Seq<char>)>,
    source_literals2: Seq<Seq<char>>,
)
    requires
        spec_strs_within(whitelist, whitelist2),
        spec_strs_within(literals, literals2),
        forall|g: (GuardPos, Seq<char>)| guards.contains(g) ==> #[trigger] guards2.contains(g),
        spec_strs_within(source_literals, source_literals2),
    ensures
        spec_keep_rank(spec_status(k, whitelist, literals, guards, source_literals))
            <= spec_keep_rank(spec_status(k, whitelist2, literals2, guards2, source_literals2)),
{
    if spec_guard_hit(k, guards) {
        let i = choose|i: int|
            0 <= i < guards.len() && (spec_guard_matches(#[trigger] guards[i], k.1) || match k.2 {
                Some(p) => spec_guard_matches(guards[i], p),
                None => false,
            });
        assert(guards.contains(guards[i]));
        assert(guards2.contains(guards[i]));
        let j = choose|j: int| 0 <= j < guards2.len() && guards2[j] == guards[i];
        assert(spec_guard_hit(k, guards2));
    }
    if spec_form_in(k, whitelist) {
        if whitelist.contains(k.1) {
            assert(whitelist2.contains(k.1));
        }
    }
    if spec_form_in(k, literals) {
        if literals.contains(k.1) {
            assert(literals2.contains(k.1));
        }
    }
    if spec_form_in(k, source_literals) {
        if source_literals.contains(k.1) {
            assert(source_literals2.contains(k.1));
        }
    }
}

/// Blind entries are in strictly increasing label order (so each label
/// appears once).
pub open spec fn spec_labels_sorted(b: Seq<(Seq<char>, nat)>) -> bool {
    forall|i: int, j: int| 0 <= i < j < b.len() ==> spec_text_lt(#[trigger] b[i].0, #[trigger] b[j].0)
}

/// Adding blind sites keeps the entries in label order: the summary reads
/// like a map from label to count, each label once, sorted.
pub proof fn lemma_blind_add_sorted(b: Seq<(Seq<char>, nat)>, label: Seq<char>, n: nat)
    requires
        spec_labels_sorted(b),
    ensures
        spec_labels_sorted(spec_blind_add(b, label, n)),
        forall|i: int|
            0 <= i < spec_blind_add(b, label, n).len() ==> (#[trigger] spec_blind_add(b, label, n)[i].0
                == label || exists|j: int| 0 <= j < b.len() && b[j].0 == spec_blind_add(b, label, n)[i].0),
    decreases b.len(),
{
    let r = spec_blind_add(b, label, n);
    if b.len() == 0 {
    } else if b[0].0 == label {
        assert forall|i: int| 0 <= i < r.len() implies (#[trigger] r[i].0 == label || exists|j: int|
            0 <= j < b.len() && b[j].0 == r[i].0) by {
            if i > 0 {
                assert(b[i].0 == r[i].0);
            }
        }
    } else if crate::order::spec_text_lt(label, b[0].0) {
        assert forall|i: int, j: int| 0 <= i < j < r.len() implies spec_text_lt(
            #[trigger] r[i].0,
            #[trigger] r[j].0,
        ) by {
            if i == 0 {
                if j > 1 {
                    crate::order::lemma_text_lt_transitive(label, b[0].0, b[j - 1].0);
                }
            } else {
                assert(r[i] == b[i - 1] && r[j] == b[j - 1]);
            }
        }
        assert forall|i: int| 0 <= i < r.len() implies (#[trigger] r[i].0 == label || exists|j: int|
            0 <= j < b.len() && b[j].0 == r[i].0) by {
            if i > 0 {
                assert(b[i - 1].0 == r[i].0);
            }
        }
    } else {
        let tail = b.drop_first();
        assert(spec_labels_sorted(tail)) by {
            assert forall|i: int, j: int| 0 <= i < j < tail.len() implies spec_text_lt(
                #[trigger] tail[i].0,
                #[trigger] tail[j].0,
            ) by {
                assert(tail[i] == b[i + 1] && tail[j] == b[j + 1]);
            }
        }
        lemma_blind_add_sorted(tail, label, n);
        let t = spec_blind_add(tail, label, n);
        crate::order::lemma_text_lt_total(label, b[0].0);
        assert(r =~= seq![b[0]] + t);
        assert forall|i: int, j: int| 0 <= i < j < r.len() implies spec_text_lt(
            #[trigger] r[i].0,
            #[trigger] r[j].0,
        ) by {
            if i == 0 {
                assert(r[j] == t[j - 1]);
                if t[j - 1].0 != label {
                    let m = choose|m: int| 0 <= m < tail.len() && tail[m].0 == t[j - 1].0;
                    assert(tail[m] == b[m + 1]);
                }
            } else {
                assert(r[i] == t[i - 1] && r[j] == t[j - 1]);
            }
        }
        assert forall|i: int| 0 <= i < r.len() implies (#[trigger] r[i].0 == label || exists|j: int|
            0 <= j < b.len() && b[j].0 == r[i].0) by {
            if i == 0 {
                assert(b[0].0 == r[0].0);
            } else {
                assert(r[i] == t[i - 1]);
                if t[i - 1].0 != label {
                    let m = choose|m: int| 0 <= m < tail.len() && tail[m].0 == t[i - 1].0;
                    assert(b[m + 1].0 == r[i].0);
                }
            }
        }
    }
}

/// The verdicts picked for a status carry it and come from the list, as many
/// as the count says.
pub proof fn lemma_with_status_members(v: Seq<(KeyView, Status)>, s: Status)
    ensures
        spec_with_status(v, s).len() == spec_count_status(v, s),
        forall|i: int|
            0 <= i < spec_with_status(v, s).len() ==> (#[trigger] spec_with_status(v, s)[i]).1 == s
                && v.contains(spec_with_status(v, s)[i]),
    decreases v.len(),
{
    if v.len() > 0 {
        lemma_with_status_members(v.drop_last(), s);
        let prev = spec_with_status(v.drop_last(), s);
        let r = spec_with_status(v, s);
        assert forall|i: int| 0 <= i < r.len() implies (#[trigger] r[i]).1 == s && v.contains(r[i]) by {
            if i < prev.len() {
                assert(r[i] == prev[i]);
                let k = choose|k: int| 0 <= k < v.drop_last().len() && v.drop_last()[k] == prev[i];
                assert(v[k] == prev[i]);
            } else {
                assert(r[i] == v.last());
                assert(v[v.len() - 1] == v.last());
            }
        }
    }
}

} // verus!
