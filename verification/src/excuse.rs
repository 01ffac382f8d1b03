//! Classifying absence records into excuse categories and accumulating
//! per-category counts and durations.
//!
//! Durations are counted in 1/45ths of a lesson-hour, i.e. minutes of a
//! 45-minute lesson: a record carrying an explicit lateness contributes that
//! many minutes, a record without one contributes one nominal lesson of 45.

use vstd::prelude::*;

use crate::client::absences::AbsenceRaw;
use crate::text::str_eq;

verus! {

/// Why a record could not be classified.
#[derive(Clone, Debug, PartialEq)]
pub enum ClassificationError {
    /// The status code says the absence is excused, but no excuse type with
    /// a description was attached.
    MissingDescription,
    /// The status code is not one the classification rule knows; carries the
    /// code itself.
    UnknownStatus(String),
}

/// The classification tag of an absence record: either a fixed category or
/// an excused absence carrying the excuse's descriptive label.  Two records
/// fall into the same category exactly when their tags and descriptions
/// agree.
#[derive(Clone, Debug, PartialEq, Eq, Hash, Default)]
pub enum ExcuseType {
    #[default]
    ToBeExcused,
    Unexcused,
    Excused(String),
}

/// The mathematical value of an `ExcuseType`: the same tag with the
/// description as its character sequence.
pub enum ExcuseKind {
    ToBeExcused,
    Unexcused,
    Excused(Seq<char>),
}

impl View for ExcuseType {
    type V = ExcuseKind;

    open spec fn view(&self) -> ExcuseKind {
        match self {
            ExcuseType::ToBeExcused => ExcuseKind::ToBeExcused,
            ExcuseType::Unexcused => ExcuseKind::Unexcused,
            ExcuseType::Excused(desc) => ExcuseKind::Excused(desc@),
        }
    }
}

/// What classification says of a record: the status code "Igazolt" (excused)
/// requires the descriptive excuse type to be present, "Igazolando" (to be
/// excused) and "Igazolatlan" (unexcused) map to the fixed tags, and any
/// other code is unknown.
pub open spec fn classify_spec(a: AbsenceRaw) -> Result<ExcuseType, ClassificationError> {
    if a.excuse_status@ == "Igazolt"@ {
        match a.excuse_type {
            Some(t) => Ok(ExcuseType::Excused(t.desc)),
            None => Err(ClassificationError::MissingDescription),
        }
    } else if a.excuse_status@ == "Igazolando"@ {
        Ok(ExcuseType::ToBeExcused)
    } else if a.excuse_status@ == "Igazolatlan"@ {
        Ok(ExcuseType::Unexcused)
    } else {
        Err(ClassificationError::UnknownStatus(a.excuse_status))
    }
}

/// The category of a record, or `None` where classification fails.
pub open spec fn classify_kind(a: AbsenceRaw) -> Option<ExcuseKind> {
    match classify_spec(a) {
        Ok(e) => Some(e@),
        Err(_) => None,
    }
}

/// The duration a record contributes, in 1/45ths of an hour: its explicit
/// lateness in minutes, or one nominal 45-minute lesson.
pub open spec fn record_q45(a: AbsenceRaw) -> int {
    match a.late_by_minutes {
        Some(m) => m as int,
        None => 45,
    }
}

impl ExcuseType {
    /// Maps a record's raw status code to its category.
    pub fn derive_from(absence: &AbsenceRaw) -> (r: Result<ExcuseType, ClassificationError>)
        ensures
            r == classify_spec(*absence),
    {
        if str_eq(absence.excuse_status.as_str(), "Igazolt") {
            match &absence.excuse_type {
                Some(t) => Ok(ExcuseType::Excused(t.desc.clone())),
                None => Err(ClassificationError::MissingDescription),
            }
        } else if str_eq(absence.excuse_status.as_str(), "Igazolando") {
            Ok(ExcuseType::ToBeExcused)
        } else if str_eq(absence.excuse_status.as_str(), "Igazolatlan") {
            Ok(ExcuseType::Unexcused)
        } else {
            Err(ClassificationError::UnknownStatus(absence.excuse_status.clone()))
        }
    }

    /// Whether two categories are the same: same tag, and for excused
    /// absences the same description.
    pub fn key_eq(&self, other: &ExcuseType) -> (r: bool)
        ensures
            r == (self@ == other@),
    {
        match (self, other) {
            (ExcuseType::ToBeExcused, ExcuseType::ToBeExcused) => true,
            (ExcuseType::Unexcused, ExcuseType::Unexcused) => true,
            (ExcuseType::Excused(a), ExcuseType::Excused(b)) => str_eq(a.as_str(), b.as_str()),
            _ => false,
        }
    }
}

// --- per-category tallies ----------------------------------------------------

/// The count and duration stored under the category `k`, or `None`.
pub open spec fn tally_get<K>(s: Seq<(K, (int, int))>, k: K) -> Option<(int, int)>
    decreases s.len(),
{
    if s.len() == 0 {
        None
    } else if s[0].0 == k {
        Some(s[0].1)
    } else {
        tally_get(s.drop_first(), k)
    }
}

/// One record accumulated into a tally: the category's count grows by one
/// and its duration by `m`, a new category starting from zero.
pub open spec fn tally_bump<K>(s: Seq<(K, (int, int))>, k: K, m: int) -> Seq<(K, (int, int))>
    decreases s.len(),
{
    if s.len() == 0 {
        seq![(k, (1int, m))]
    } else if s[0].0 == k {
        seq![(s[0].0, (s[0].1.0 + 1, s[0].1.1 + m))] + s.drop_first()
    } else {
        seq![s[0]] + tally_bump(s.drop_first(), k, m)
    }
}

/// No two tally entries share a category.
pub open spec fn tally_unique<K>(s: Seq<(K, (int, int))>) -> bool {
    forall|i: int, j: int| 0 <= i < j < s.len() ==> s[i].0 != s[j].0
}

/// All counts and durations a tally can hold after `n` records, each record
/// contributing one occurrence and at most `u32::MAX` (or the nominal 45)
/// duration units.
pub open spec fn tally_bounded<K>(s: Seq<(K, (int, int))>, n: int) -> bool {
    forall|i: int|
        0 <= i < s.len() ==> 0 <= (#[trigger] s[i]).1.0 <= n && 0 <= s[i].1.1 <= n * 4294967340
}

proof fn lemma_tally_bump_found<K>(s: Seq<(K, (int, int))>, k: K, m: int, i: int)
    requires
        0 <= i < s.len(),
        s[i].0 == k,
        forall|j: int| 0 <= j < i ==> s[j].0 != k,
    ensures
        tally_get(s, k) == Some(s[i].1),
        tally_bump(s, k, m) =~= s.update(i, (k, (s[i].1.0 + 1, s[i].1.1 + m))),
    decreases i,
{
    if i == 0 {
        assert(seq![(s[0].0, (s[0].1.0 + 1, s[0].1.1 + m))] + s.drop_first() =~= s.update(
            0,
            (k, (s[0].1.0 + 1, s[0].1.1 + m)),
        ));
    } else {
        lemma_tally_bump_found(s.drop_first(), k, m, i - 1);
        assert(seq![s[0]] + s.drop_first().update(i - 1, (k, (s[i].1.0 + 1, s[i].1.1 + m)))
            =~= s.update(i, (k, (s[i].1.0 + 1, s[i].1.1 + m))));
    }
}

proof fn lemma_tally_bump_absent<K>(s: Seq<(K, (int, int))>, k: K, m: int)
    requires
        forall|j: int| 0 <= j < s.len() ==> s[j].0 != k,
    ensures
        tally_get(s, k) is None,
        tally_bump(s, k, m) =~= s.push((k, (1int, m))),
    decreases s.len(),
{
    if s.len() > 0 {
        lemma_tally_bump_absent(s.drop_first(), k, m);
        assert(seq![s[0]] + s.drop_first().push((k, (1int, m))) =~= s.push((k, (1int, m))));
    }
}

/// Accumulating a record keeps categories unique and keeps the tally within
/// the growing bounds.
pub(crate) proof fn lemma_tally_bump_props<K>(s: Seq<(K, (int, int))>, k: K, m: int, n: int)
    requires
        tally_unique(s),
        tally_bounded(s, n),
        0 <= m <= 4294967340,
        0 <= n,
    ensures
        tally_unique(tally_bump(s, k, m)),
        tally_bounded(tally_bump(s, k, m), n + 1),
    decreases s.len(),
{
    if s.len() == 0 {
    } else if s[0].0 == k {
        let r = seq![(s[0].0, (s[0].1.0 + 1, s[0].1.1 + m))] + s.drop_first();
        assert(forall|i: int| 1 <= i < r.len() ==> r[i] == s[i]);
        assert(tally_unique(r));
        assert(tally_bounded(r, n + 1));
    } else {
        assert(tally_unique(s.drop_first()));
        assert(tally_bounded(s.drop_first(), n));
        lemma_tally_bump_props(s.drop_first(), k, m, n);
        let r = seq![s[0]] + tally_bump(s.drop_first(), k, m);
        assert forall|i: int, j: int| 0 <= i < j < r.len() implies r[i].0 != r[j].0 by {
            if i > 0 {
                lemma_tally_bump_mem(s.drop_first(), k, m, i - 1);
                lemma_tally_bump_mem(s.drop_first(), k, m, j - 1);
            } else {
                lemma_tally_bump_mem(s.drop_first(), k, m, j - 1);
                assert(tally_get(s.drop_first(), s[0].0) is None ==> r[j].0 != s[0].0);
            }
        }
        assert(tally_bounded(r, n + 1));
    }
}

/// Every category in a bumped tally is either the bumped category or one
/// that was already present.
proof fn lemma_tally_bump_mem<K>(s: Seq<(K, (int, int))>, k: K, m: int, i: int)
    requires
        0 <= i < tally_bump(s, k, m).len(),
    ensures
        tally_bump(s, k, m)[i].0 == k || exists|j: int|
            0 <= j < s.len() && (#[trigger] s[j]).0 == tally_bump(s, k, m)[i].0,
    decreases s.len(),
{
    if s.len() == 0 {
    } else if s[0].0 == k {
        if i > 0 {
            assert(s[i].0 == tally_bump(s, k, m)[i].0);
        }
    } else {
        if i > 0 {
            lemma_tally_bump_mem(s.drop_first(), k, m, i - 1);
            if tally_bump(s.drop_first(), k, m)[i - 1].0 != k {
                let j = choose|j: int|
                    0 <= j < s.drop_first().len() && (#[trigger] s.drop_first()[j]).0
                        == tally_bump(s.drop_first(), k, m)[i - 1].0;
                assert(s[j + 1].0 == tally_bump(s, k, m)[i].0);
            }
        }
    }
}

// --- the aggregates ----------------------------------------------------------

/// Count and accumulated duration of one category.  `hours_q45` is the
/// duration in 1/45ths of an hour, so the duration in hours is
/// `hours_q45 / 45`.
#[derive(Copy, Clone, Debug, PartialEq, Eq, Structural, Default)]
pub struct AbsenceDetails {
    pub occurrances: u64,
    pub hours_q45: u64,
}

/// Absences grouped by excuse category, in first-appearance order.
pub struct AbsencesByExcuse {
    entries: Vec<(ExcuseType, AbsenceDetails)>,
}

impl View for AbsencesByExcuse {
    type V = Seq<(ExcuseKind, (int, int))>;

    closed spec fn view(&self) -> Seq<(ExcuseKind, (int, int))> {
        self.entries@.map_values(
            |p: (ExcuseType, AbsenceDetails)|
                (p.0@, (p.1.occurrances as int, p.1.hours_q45 as int)),
        )
    }
}

impl AbsencesByExcuse {
    pub open spec fn wf(self) -> bool {
        tally_unique(self@)
    }

    pub fn new() -> (r: AbsencesByExcuse)
        ensures
            r@ =~= Seq::<(ExcuseKind, (int, int))>::empty(),
            r.wf(),
    {
        AbsencesByExcuse { entries: Vec::new() }
    }

    /// The entries in first-appearance order.
    pub fn entries(&self) -> (r: &Vec<(ExcuseType, AbsenceDetails)>)
        ensures
            r@.len() == self@.len(),
            forall|i: int|
                0 <= i < r@.len() ==> self@[i] == ((#[trigger] r@[i]).0@, (
                    r@[i].1.occurrances as int,
                    r@[i].1.hours_q45 as int,
                )),
    {
        &self.entries
    }

    /// The accumulator of one category, if any record fell into it.
    pub fn get(&self, key: &ExcuseType) -> (r: Option<AbsenceDetails>)
        ensures
            r is Some <==> tally_get(self@, key@) is Some,
            r matches Some(d) ==> tally_get(self@, key@) == Some(
                (d.occurrances as int, d.hours_q45 as int),
            ),
    {
        let n = self.entries.len();
        let mut i: usize = 0;
        while i < n
            invariant
                i <= n,
                n == self.entries@.len(),
                forall|j: int| 0 <= j < i ==> self@[j].0 != key@,
            decreases n - i,
        {
            proof {
                assert(self@[i as int].0 == self.entries@[i as int].0@);
            }
            if self.entries[i].0.key_eq(key) {
                proof {
                    lemma_tally_get_found(self@, key@, i as int);
                }
                return Some(self.entries[i].1);
            }
            i += 1;
        }
        proof {
            lemma_tally_get_absent(self@, key@);
        }
        None
    }

    /// Accumulates one record: one more occurrence of the category, `m`
    /// more duration units.
    #[verifier::loop_isolation(false)]
    pub(crate) fn bump(&mut self, key: ExcuseType, m: u64)
        requires
            old(self).wf(),
            m <= 4294967340,
            old(self)@.len() < usize::MAX,
            forall|i: int|
                0 <= i < old(self)@.len() ==> 0 <= (#[trigger] old(self)@[i]).1.0
                    < 0x7fff_ffff_ffff_ffff && 0 <= old(self)@[i].1.1 < 0x7fff_ffff_ffff_ffff,
        ensures
            final(self)@ =~= tally_bump(old(self)@, key@, m as int),
            final(self).wf(),
    {
        let n = self.entries.len();
        let mut i: usize = 0;
        while i < n
            invariant
                i <= n,
                n == self.entries@.len(),
                self.entries@ == old(self).entries@,
                forall|j: int| 0 <= j < i ==> self@[j].0 != key@,
            decreases n - i,
        {
            proof {
                assert(self@[i as int].0 == self.entries@[i as int].0@);
            }
            if self.entries[i].0.key_eq(&key) {
                proof {
                    assert(self@[i as int] == (
                        self.entries@[i as int].0@,
                        (
                            self.entries@[i as int].1.occurrances as int,
                            self.entries@[i as int].1.hours_q45 as int,
                        ),
                    ));
                }
                let d = self.entries[i].1;
                let e = AbsenceDetails {
                    occurrances: d.occurrances + 1,
                    hours_q45: d.hours_q45 + m,
                };
                proof {
                    lemma_tally_bump_found(self@, key@, m as int, i as int);
                }
                let k_stored = key;
                self.entries.set(i, (k_stored, e));
                proof {
                    assert(final(self)@ =~= old(self)@.update(
                        i as int,
                        (key@, (old(self)@[i as int].1.0 + 1, old(self)@[i as int].1.1 + m)),
                    ));
                    assert forall|a: int, b: int|
                        0 <= a < b < final(self)@.len() implies final(self)@[a].0
                        != final(self)@[b].0 by {
                        assert(old(self)@[a].0 != old(self)@[b].0);
                    }
                }
                return ;
            }
            i += 1;
        }
        proof {
            lemma_tally_bump_absent(self@, key@, m as int);
        }
        self.entries.push((key, AbsenceDetails { occurrances: 1, hours_q45: m }));
        proof {
            assert(final(self)@ =~= old(self)@.push((key@, (1int, m as int))));
            assert forall|a: int, b: int|
                0 <= a < b < final(self)@.len() implies final(self)@[a].0
                != final(self)@[b].0 by {
                if b < old(self)@.len() {
                    assert(old(self)@[a].0 != old(self)@[b].0);
                } else {
                    assert(old(self)@[a].0 != key@);
                }
            }
        }
    }
}

proof fn lemma_tally_get_found<K>(s: Seq<(K, (int, int))>, k: K, i: int)
    requires
        0 <= i < s.len(),
        s[i].0 == k,
        forall|j: int| 0 <= j < i ==> s[j].0 != k,
    ensures
        tally_get(s, k) == Some(s[i].1),
    decreases i,
{
    if i > 0 {
        lemma_tally_get_found(s.drop_first(), k, i - 1);
    }
}

proof fn lemma_tally_get_absent<K>(s: Seq<(K, (int, int))>, k: K)
    requires
        forall|j: int| 0 <= j < s.len() ==> s[j].0 != k,
    ensures
        tally_get(s, k) is None,
    decreases s.len(),
{
    if s.len() > 0 {
        lemma_tally_get_absent(s.drop_first(), k);
    }
}

/// A tally never grows by more than one entry per record.
pub(crate) proof fn lemma_tally_bump_len<K>(s: Seq<(K, (int, int))>, k: K, m: int)
    ensures
        tally_bump(s, k, m).len() <= s.len() + 1,
    decreases s.len(),
{
    if s.len() > 0 && s[0].0 != k {
        lemma_tally_bump_len(s.drop_first(), k, m);
    }
}

// --- aggregation --------------------------------------------------------------

/// The tally after the first `n` records: each record that classifies is
/// accumulated under its category, and each record that does not is left
/// out.  One malformed record never aborts the rest.
pub open spec fn agg(s: Seq<AbsenceRaw>, n: int) -> Seq<(ExcuseKind, (int, int))>
    decreases n,
{
    if n <= 0 {
        Seq::empty()
    } else {
        match classify_kind(s[n - 1]) {
            Some(k) => tally_bump(agg(s, n - 1), k, record_q45(s[n - 1])),
            None => agg(s, n - 1),
        }
    }
}

/// The category of a record as an optional key: records that fail
/// classification fall under `None` instead of being dropped.
pub open spec fn opt_kind(o: Option<ExcuseType>) -> Option<ExcuseKind> {
    match o {
        Some(e) => Some(e@),
        None => None,
    }
}

/// The tally after the first `n` records when classification failures are
/// kept visible under the explicit unclassified key.
pub open spec fn agg_opt(s: Seq<AbsenceRaw>, n: int) -> Seq<(Option<ExcuseKind>, (int, int))>
    decreases n,
{
    if n <= 0 {
        Seq::empty()
    } else {
        tally_bump(agg_opt(s, n - 1), classify_kind(s[n - 1]), record_q45(s[n - 1]))
    }
}

/// Groups records by excuse category, accumulating count and duration per
/// category.  Records that fail classification are excluded from the result;
/// classification failure of one record never aborts the rest.
#[verifier::loop_isolation(false)]
pub fn absences_by_excuse_type(records: &Vec<AbsenceRaw>) -> (r: AbsencesByExcuse)
    requires
        records@.len() <= 0x4000_0000,
    ensures
        r@ =~= agg(records@, records@.len() as int),
        r.wf(),
{
    let mut buf = AbsencesByExcuse::new();
    let n = records.len();
    let mut i: usize = 0;
    while i < n
        invariant
            i <= n,
            buf.wf(),
            buf@ =~= agg(records@, i as int),
            buf@.len() <= i,
            tally_bounded(buf@, i as int),
        decreases n - i,
    {
        let ghost before = buf@;
        match ExcuseType::derive_from(&records[i]) {
            Ok(key) => {
                let m: u64 = match records[i].late_by_minutes {
                    Some(m) => m as u64,
                    None => 45,
                };
                proof {
                    lemma_tally_bump_props(before, key@, m as int, i as int);
                    lemma_tally_bump_len(before, key@, m as int);
                }
                buf.bump(key, m);
            },
            Err(_) => {
                proof {
                    lemma_tally_bounded_grow(buf@, i as int);
                }
            },
        }
        i += 1;
    }
    buf
}

/// A tally within the bounds for `n` records is within them for `n + 1`.
proof fn lemma_tally_bounded_grow<K>(s: Seq<(K, (int, int))>, n: int)
    requires
        0 <= n,
        tally_bounded(s, n),
    ensures
        tally_bounded(s, n + 1),
{
    assert forall|i: int| 0 <= i < s.len() implies 0 <= (#[trigger] s[i]).1.0 <= n + 1 && 0
        <= s[i].1.1 <= (n + 1) * 4294967340 by {
        assert(s[i].1.1 <= n * 4294967340);
        assert(n * 4294967340 <= (n + 1) * 4294967340) by (nonlinear_arith)
            requires 0 <= n;
    }
}

/// Absences grouped by optional excuse category: records that fail
/// classification are tallied under `None` instead of being dropped, for
/// callers that want the failures visible.
pub struct AbsencesByExcuseOpt {
    entries: Vec<(Option<ExcuseType>, AbsenceDetails)>,
}

impl View for AbsencesByExcuseOpt {
    type V = Seq<(Option<ExcuseKind>, (int, int))>;

    closed spec fn view(&self) -> Seq<(Option<ExcuseKind>, (int, int))> {
        self.entries@.map_values(
            |p: (Option<ExcuseType>, AbsenceDetails)|
                (opt_kind(p.0), (p.1.occurrances as int, p.1.hours_q45 as int)),
        )
    }
}

/// Whether two optional categories are the same.
fn opt_key_eq(a: &Option<ExcuseType>, b: &Option<ExcuseType>) -> (r: bool)
    ensures
        r == (opt_kind(*a) == opt_kind(*b)),
{
    match (a, b) {
        (Some(x), Some(y)) => x.key_eq(y),
        (None, None) => true,
        _ => false,
    }
}

impl AbsencesByExcuseOpt {
    pub open spec fn wf(self) -> bool {
        tally_unique(self@)
    }

    pub fn new() -> (r: AbsencesByExcuseOpt)
        ensures
            r@ =~= Seq::<(Option<ExcuseKind>, (int, int))>::empty(),
            r.wf(),
    {
        AbsencesByExcuseOpt { entries: Vec::new() }
    }

    /// The entries in first-appearance order.
    pub fn entries(&self) -> (r: &Vec<(Option<ExcuseType>, AbsenceDetails)>)
        ensures
            r@.len() == self@.len(),
            forall|i: int|
                0 <= i < r@.len() ==> self@[i] == (opt_kind((#[trigger] r@[i]).0), (
                    r@[i].1.occurrances as int,
                    r@[i].1.hours_q45 as int,
                )),
    {
        &self.entries
    }

    /// The accumulator of one optional category, if any record fell into it.
    pub fn get(&self, key: &Option<ExcuseType>) -> (r: Option<AbsenceDetails>)
        ensures
            r is Some <==> tally_get(self@, opt_kind(*key)) is Some,
            r matches Some(d) ==> tally_get(self@, opt_kind(*key)) == Some(
                (d.occurrances as int, d.hours_q45 as int),
            ),
    {
        let n = self.entries.len();
        let mut i: usize = 0;
        while i < n
            invariant
                i <= n,
                n == self.entries@.len(),
                forall|j: int| 0 <= j < i ==> self@[j].0 != opt_kind(*key),
            decreases n - i,
        {
            proof {
                assert(self@[i as int].0 == opt_kind(self.entries@[i as int].0));
            }
            if opt_key_eq(&self.entries[i].0, key) {
                proof {
                    lemma_tally_get_found(self@, opt_kind(*key), i as int);
                }
                return Some(self.entries[i].1);
            }
            i += 1;
        }
        proof {
            lemma_tally_get_absent(self@, opt_kind(*key));
        }
        None
    }

    /// Accumulates one record under its optional category.
    #[verifier::loop_isolation(false)]
    fn bump(&mut self, key: Option<ExcuseType>, m: u64)
        requires
            old(self).wf(),
            m <= 4294967340,
            old(self)@.len() < usize::MAX,
            forall|i: int|
                0 <= i < old(self)@.len() ==> 0 <= (#[trigger] old(self)@[i]).1.0
                    < 0x7fff_ffff_ffff_ffff && 0 <= old(self)@[i].1.1 < 0x7fff_ffff_ffff_ffff,
        ensures
            final(self)@ =~= tally_bump(old(self)@, opt_kind(key), m as int),
            final(self).wf(),
    {
        let n = self.entries.len();
        let mut i: usize = 0;
        while i < n
            invariant
                i <= n,
                n == self.entries@.len(),
                self.entries@ == old(self).entries@,
                forall|j: int| 0 <= j < i ==> self@[j].0 != opt_kind(key),
            decreases n - i,
        {
            proof {
                assert(self@[i as int].0 == opt_kind(self.entries@[i as int].0));
            }
            if opt_key_eq(&self.entries[i].0, &key) {
                proof {
                    assert(self@[i as int] == (
                        opt_kind(self.entries@[i as int].0),
                        (
                            self.entries@[i as int].1.occurrances as int,
                            self.entries@[i as int].1.hours_q45 as int,
                        ),
                    ));
                }
                let d = self.entries[i].1;
                let e = AbsenceDetails {
                    occurrances: d.occurrances + 1,
                    hours_q45: d.hours_q45 + m,
                };
                proof {
                    lemma_tally_bump_found(self@, opt_kind(key), m as int, i as int);
                }
                let k_stored = key;
                self.entries.set(i, (k_stored, e));
                proof {
                    assert(final(self)@ =~= old(self)@.update(
                        i as int,
                        (
                            opt_kind(key),
                            (old(self)@[i as int].1.0 + 1, old(self)@[i as int].1.1 + m),
                        ),
                    ));
                    assert forall|a: int, b: int|
                        0 <= a < b < final(self)@.len() implies final(self)@[a].0
                        != final(self)@[b].0 by {
                        assert(old(self)@[a].0 != old(self)@[b].0);
                    }
                }
                return ;
            }
            i += 1;
        }
        proof {
            lemma_tally_bump_absent(self@, opt_kind(key), m as int);
        }
        self.entries.push((key, AbsenceDetails { occurrances: 1, hours_q45: m }));
        proof {
            assert(final(self)@ =~= old(self)@.push((opt_kind(key), (1int, m as int))));
            assert forall|a: int, b: int|
                0 <= a < b < final(self)@.len() implies final(self)@[a].0
                != final(self)@[b].0 by {
                if b < old(self)@.len() {
                    assert(old(self)@[a].0 != old(self)@[b].0);
                } else {
                    assert(old(self)@[a].0 != opt_kind(key));
                }
            }
        }
    }
}

/// Groups records by optional excuse category: failures are bucketed under
/// the explicit unclassified key instead of being dropped.
#[verifier::loop_isolation(false)]
pub fn absences_by_excuse_type_opt(records: &Vec<AbsenceRaw>) -> (r: AbsencesByExcuseOpt)
    requires
        records@.len() <= 0x4000_0000,
    ensures
        r@ =~= agg_opt(records@, records@.len() as int),
        r.wf(),
{
    let mut buf = AbsencesByExcuseOpt::new();
    let n = records.len();
    let mut i: usize = 0;
    while i < n
        invariant
            i <= n,
            buf.wf(),
            buf@ =~= agg_opt(records@, i as int),
            buf@.len() <= i,
            tally_bounded(buf@, i as int),
        decreases n - i,
    {
        let ghost before = buf@;
        let key: Option<ExcuseType> = match ExcuseType::derive_from(&records[i]) {
            Ok(k) => Some(k),
            Err(_) => None,
        };
        let m: u64 = match records[i].late_by_minutes {
            Some(m) => m as u64,
            None => 45,
        };
        proof {
            assert(opt_kind(key) == classify_kind(records@[i as int]));
            lemma_tally_bump_props(before, opt_kind(key), m as int, i as int);
            lemma_tally_bump_len(before, opt_kind(key), m as int);
        }
        buf.bump(key, m);
        i += 1;
    }
    buf
}

// --- totals -------------------------------------------------------------------

/// The sum of the occurrence counts over all categories of a tally.
pub open spec fn tally_total_occ<K>(s: Seq<(K, (int, int))>) -> int
    decreases s.len(),
{
    if s.len() == 0 {
        0
    } else {
        s[0].1.0 + tally_total_occ(s.drop_first())
    }
}

/// How many of the first `n` records classify successfully.
pub open spec fn classified_count(s: Seq<AbsenceRaw>, n: int) -> int
    decreases n,
{
    if n <= 0 {
        0
    } else {
        classified_count(s, n - 1) + if classify_kind(s[n - 1]) is Some {
            1int
        } else {
            0int
        }
    }
}

/// Accumulating one record raises the summed occurrence count by exactly
/// one, whether it lands in an existing category or opens a new one.
proof fn lemma_tally_bump_total<K>(s: Seq<(K, (int, int))>, k: K, m: int)
    ensures
        tally_total_occ(tally_bump(s, k, m)) == tally_total_occ(s) + 1,
    decreases s.len(),
{
    let r = tally_bump(s, k, m);
    if s.len() == 0 {
        assert(r =~= seq![(k, (1int, m))]);
        assert(r.drop_first() =~= Seq::<(K, (int, int))>::empty());
        assert(tally_total_occ(r) == r[0].1.0 + tally_total_occ(r.drop_first()));
        assert(tally_total_occ(r.drop_first()) == 0);
    } else if s[0].0 == k {
        assert(r.drop_first() =~= s.drop_first());
        assert(tally_total_occ(r) == r[0].1.0 + tally_total_occ(r.drop_first()));
        assert(tally_total_occ(s) == s[0].1.0 + tally_total_occ(s.drop_first()));
        assert(r[0].1.0 == s[0].1.0 + 1);
    } else {
        lemma_tally_bump_total(s.drop_first(), k, m);
        assert(r.drop_first() =~= tally_bump(s.drop_first(), k, m));
        assert(tally_total_occ(r) == r[0].1.0 + tally_total_occ(r.drop_first()));
        assert(tally_total_occ(s) == s[0].1.0 + tally_total_occ(s.drop_first()));
        assert(r[0] == s[0]);
    }
}

/// Aggregation totals: over all categories, the summed occurrence count of
/// the aggregate of the first `n` records equals the number of those records
/// that classified successfully.
pub proof fn lemma_aggregation_totals(s: Seq<AbsenceRaw>, n: int)
    requires
        0 <= n <= s.len(),
    ensures
        tally_total_occ(agg(s, n)) == classified_count(s, n),
    decreases n,
{
    if n > 0 {
        lemma_aggregation_totals(s, n - 1);
        match classify_kind(s[n - 1]) {
            Some(k) => {
                lemma_tally_bump_total(agg(s, n - 1), k, record_q45(s[n - 1]));
            },
            None => {},
        }
    }
}

/// In the visible-failures aggregate every record lands somewhere, so the
/// summed occurrence count equals the number of records.
pub proof fn lemma_aggregation_totals_opt(s: Seq<AbsenceRaw>, n: int)
    requires
        0 <= n <= s.len(),
    ensures
        tally_total_occ(agg_opt(s, n)) == n,
    decreases n,
{
    if n > 0 {
        lemma_aggregation_totals_opt(s, n - 1);
        lemma_tally_bump_total(agg_opt(s, n - 1), classify_kind(s[n - 1]), record_q45(s[n - 1]));
    }
}

} // verus!
