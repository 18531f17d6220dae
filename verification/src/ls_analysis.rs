//! Local Storage forensic analyzer: graded observations over a whole store.
//!
//! Every finding is grounded in the store's own state: a `META` timestamp
//! that predates the format, a `DATA` record with no `META` for its origin.
//! Each is an observation ("consistent with"), never a conclusion.

use vstd::prelude::*;
use crate::localstorage::LocalStorageRecord;
use crate::report::{Category, Severity};
use crate::text::{decimal, push_decimal, push_str, push_string, string_from_chars};

verus! {

/// WebKit microseconds (since 1601-01-01 UTC) at 2010-01-01 00:00:00 UTC.
/// Chrome's LevelDB-backed Local Storage shipped in 2017, so a `META`
/// timestamp earlier than 2010 cannot be a genuine last-modified time.
pub const WEBKIT_MICROS_2010: u64 = 12_906_777_600_000_000;

/// A graded anomaly observed in a Local Storage store.
#[derive(Debug, Clone, PartialEq, Eq)]
pub enum LsAnomalyKind {
    /// A live `META` record carries a last-modified time earlier than the
    /// format could have produced: consistent with a zeroed or edited time.
    ImplausibleMetaTimestamp { origin: String, timestamp_webkit_micros: u64 },
    /// A live `DATA` record exists for an origin with no live `META` record:
    /// consistent with a deleted metadata row or a partially recovered store.
    OrphanedData { origin: String },
}

/// The severity of each kind.
pub open spec fn ls_severity(k: LsAnomalyKind) -> Severity {
    match k {
        LsAnomalyKind::ImplausibleMetaTimestamp { .. } => Severity::Medium,
        LsAnomalyKind::OrphanedData { .. } => Severity::Low,
    }
}

/// The analytical lens of each kind.
pub open spec fn ls_category(k: LsAnomalyKind) -> Category {
    match k {
        LsAnomalyKind::ImplausibleMetaTimestamp { .. } => Category::History,
        LsAnomalyKind::OrphanedData { .. } => Category::Integrity,
    }
}

/// The stable machine-readable code of each kind.
pub open spec fn ls_code(k: LsAnomalyKind) -> Seq<char> {
    match k {
        LsAnomalyKind::ImplausibleMetaTimestamp { .. } => "LS-META-TIME-IMPLAUSIBLE"@,
        LsAnomalyKind::OrphanedData { .. } => "LS-DATA-ORPHANED"@,
    }
}

/// The human-readable note of each kind.
pub open spec fn ls_note(k: LsAnomalyKind) -> Seq<char> {
    match k {
        LsAnomalyKind::ImplausibleMetaTimestamp { origin, timestamp_webkit_micros } =>
            "Local Storage META for origin "@ + origin@ + " records a last-modified time of "@
            + decimal(timestamp_webkit_micros as nat)
            + " WebKit \u{b5}s, earlier than the format could have written (before 2010) \u{2014} consistent with a zeroed or edited timestamp"@,
        LsAnomalyKind::OrphanedData { origin } => "Local Storage DATA exists for origin "@ + origin@
            + " with no META record \u{2014} consistent with a deleted metadata row or a partially recovered store"@,
    }
}

impl LsAnomalyKind {
    /// Severity: the single source of truth.
    pub fn severity(&self) -> (s: Severity)
        ensures
            s == ls_severity(*self),
    {
        match self {
            LsAnomalyKind::ImplausibleMetaTimestamp { .. } => Severity::Medium,
            LsAnomalyKind::OrphanedData { .. } => Severity::Low,
        }
    }

    /// Analytical lens.
    pub fn category(&self) -> (c: Category)
        ensures
            c == ls_category(*self),
    {
        match self {
            LsAnomalyKind::ImplausibleMetaTimestamp { .. } => Category::History,
            LsAnomalyKind::OrphanedData { .. } => Category::Integrity,
        }
    }

    /// Stable machine-readable code (a published contract, never reused).
    pub fn code(&self) -> (c: &'static str)
        ensures
            c@ == ls_code(*self),
    {
        match self {
            LsAnomalyKind::ImplausibleMetaTimestamp { .. } => "LS-META-TIME-IMPLAUSIBLE",
            LsAnomalyKind::OrphanedData { .. } => "LS-DATA-ORPHANED",
        }
    }

    /// Human-readable note (an observation, not a conclusion).
    pub fn note(&self) -> (n: String)
        ensures
            n@ == ls_note(*self),
    {
        let mut out: Vec<char> = Vec::new();
        match self {
            LsAnomalyKind::ImplausibleMetaTimestamp { origin, timestamp_webkit_micros } => {
                push_str(&mut out, "Local Storage META for origin ");
                push_string(&mut out, origin);
                push_str(&mut out, " records a last-modified time of ");
                push_decimal(&mut out, *timestamp_webkit_micros);
                push_str(
                    &mut out,
                    " WebKit \u{b5}s, earlier than the format could have written (before 2010) \u{2014} consistent with a zeroed or edited timestamp",
                );
            },
            LsAnomalyKind::OrphanedData { origin } => {
                push_str(&mut out, "Local Storage DATA exists for origin ");
                push_string(&mut out, origin);
                push_str(
                    &mut out,
                    " with no META record \u{2014} consistent with a deleted metadata row or a partially recovered store",
                );
            },
        }
        assert(out@ =~= ls_note(*self));
        string_from_chars(&out)
    }
}

/// A graded finding: an [`LsAnomalyKind`] plus its derived severity, code and
/// note.
#[derive(Debug, Clone)]
pub struct LsAnomaly {
    pub kind: LsAnomalyKind,
    severity: Severity,
    code: &'static str,
    note: String,
}

impl LsAnomaly {
    /// The finding's kind (its `kind` field).
    pub closed spec fn finding_kind(self) -> LsAnomalyKind {
        self.kind
    }

    /// The severity recorded when the finding was made.
    pub closed spec fn recorded_severity(self) -> Severity {
        self.severity
    }

    /// The code recorded when the finding was made.
    pub closed spec fn recorded_code(self) -> Seq<char> {
        self.code@
    }

    /// The note recorded when the finding was made.
    pub closed spec fn recorded_note(self) -> Seq<char> {
        self.note@
    }

    /// A finding whose recorded severity, code and note are its kind's.
    pub open spec fn graded(self) -> bool {
        &&& self.recorded_severity() == ls_severity(self.finding_kind())
        &&& self.recorded_code() == ls_code(self.finding_kind())
        &&& self.recorded_note() == ls_note(self.finding_kind())
    }

    /// Grade `kind`: derive its severity, code and note once.
    pub fn new(kind: LsAnomalyKind) -> (a: Self)
        ensures
            a.finding_kind() == kind,
            a.graded(),
    {
        let severity = kind.severity();
        let code = kind.code();
        let note = kind.note();
        LsAnomaly { kind, severity, code, note }
    }

    /// The recorded severity.
    pub fn severity(&self) -> (s: Severity)
        ensures
            s == self.recorded_severity(),
    {
        self.severity
    }

    /// The recorded code.
    pub fn code(&self) -> (c: &'static str)
        ensures
            c@ == self.recorded_code(),
    {
        self.code
    }

    /// The recorded note.
    pub fn note(&self) -> (n: String)
        ensures
            n@ == self.recorded_note(),
    {
        self.note.clone()
    }

    /// The analytical lens of the finding's kind.
    pub fn category(&self) -> (c: Category)
        ensures
            c == ls_category(self.finding_kind()),
    {
        self.kind.category()
    }
}

/// Whether `rs` holds a live `META` record for `origin`.
pub open spec fn has_live_meta(rs: Seq<LocalStorageRecord>, origin: Seq<char>) -> bool {
    exists|i: int|
        0 <= i < rs.len() && (#[trigger] rs[i] matches LocalStorageRecord::Meta {
            origin: o,
            deleted,
            ..
        } && !deleted && o@ == origin)
}

/// The findings one record of the store `all` exhibits: a live `META` earlier
/// than 2010, or a live `DATA` whose origin has no live `META`. Tombstones and
/// `Other` records exhibit none.
pub open spec fn ls_record_findings(all: Seq<LocalStorageRecord>, r: LocalStorageRecord) -> Seq<
    LsAnomalyKind,
> {
    match r {
        LocalStorageRecord::Meta { origin, timestamp_webkit_micros, deleted, .. } => if !deleted
            && timestamp_webkit_micros < WEBKIT_MICROS_2010 {
            seq![LsAnomalyKind::ImplausibleMetaTimestamp { origin, timestamp_webkit_micros }]
        } else {
            Seq::empty()
        },
        LocalStorageRecord::Data { origin, deleted, .. } => if !deleted && !has_live_meta(
            all,
            origin@,
        ) {
            seq![LsAnomalyKind::OrphanedData { origin }]
        } else {
            Seq::empty()
        },
        LocalStorageRecord::Other { .. } => Seq::empty(),
    }
}

/// The findings of the records `rs` of the store `all`, record by record.
pub open spec fn ls_findings(all: Seq<LocalStorageRecord>, rs: Seq<LocalStorageRecord>) -> Seq<
    LsAnomalyKind,
>
    decreases rs.len(),
{
    if rs.len() == 0 {
        Seq::empty()
    } else {
        ls_findings(all, rs.drop_last()) + ls_record_findings(all, rs.last())
    }
}

/// Whether `out` is exactly the graded findings `kinds`, in order.
pub open spec fn graded_as(out: Seq<LsAnomaly>, kinds: Seq<LsAnomalyKind>) -> bool {
    &&& out.len() == kinds.len()
    &&& forall|i: int|
        0 <= i < out.len() ==> (#[trigger] out[i]).finding_kind() == kinds[i] && out[i].graded()
}

/// The origins of the live `META` records of `rs`, in order.
fn live_meta_origins(rs: &[LocalStorageRecord]) -> (v: Vec<String>)
    ensures
        forall|o: Seq<char>| has_live_meta(rs@, o) <==> exists|k: int| 0 <= k < v@.len() && (#[trigger] v@[k])@ == o,
{
    let mut v: Vec<String> = Vec::new();
    let mut i: usize = 0;
    while i < rs.len()
        invariant
            i <= rs@.len(),
            forall|o: Seq<char>|
                has_live_meta(rs@.subrange(0, i as int), o) <==> exists|k: int|
                    0 <= k < v@.len() && (#[trigger] v@[k])@ == o,
        decreases rs@.len() - i,
    {
        let ghost pre = rs@.subrange(0, i as int);
        let ghost post = rs@.subrange(0, i + 1);
        let ghost old_v = v@;
        match &rs[i] {
            LocalStorageRecord::Meta { origin, deleted, .. } => {
                if !*deleted {
                    v.push(origin.clone());
                }
            },
            _ => {},
        }
        assert forall|o: Seq<char>| has_live_meta(post, o) <==> exists|k: int|
            0 <= k < v@.len() && (#[trigger] v@[k])@ == o by {
            if has_live_meta(post, o) {
                let j = choose|j: int|
                    0 <= j < post.len() && (#[trigger] post[j] matches LocalStorageRecord::Meta {
                        origin: og,
                        deleted,
                        ..
                    } && !deleted && og@ == o);
                if j < i {
                    assert(pre[j] == post[j]);
                    assert(has_live_meta(pre, o));
                    let k = choose|k: int| 0 <= k < old_v.len() && (#[trigger] old_v[k])@ == o;
                    assert(v@[k] == old_v[k]);
                } else {
                    assert(v@[old_v.len() as int]@ == o);
                }
            }
            if exists|k: int| 0 <= k < v@.len() && (#[trigger] v@[k])@ == o {
                let k = choose|k: int| 0 <= k < v@.len() && (#[trigger] v@[k])@ == o;
                if k < old_v.len() {
                    assert(old_v[k] == v@[k]);
                    assert(has_live_meta(pre, o));
                    let j = choose|j: int|
                        0 <= j < pre.len() && (#[trigger] pre[j] matches LocalStorageRecord::Meta {
                            origin: og,
                            deleted,
                            ..
                        } && !deleted && og@ == o);
                    assert(post[j] == pre[j]);
                } else {
                    assert(post[i as int] == rs@[i as int]);
                }
            }
        }
        i = i + 1;
    }
    assert(rs@.subrange(0, rs@.len() as int) =~= rs@);
    v
}

/// Whether `origin` is one of `origins`.
fn contains_origin(origins: &Vec<String>, origin: &String) -> (r: bool)
    ensures
        r == exists|k: int| 0 <= k < origins@.len() && (#[trigger] origins@[k])@ == origin@,
{
    let mut i: usize = 0;
    while i < origins.len()
        invariant
            i <= origins@.len(),
            forall|k: int| 0 <= k < i ==> (#[trigger] origins@[k])@ != origin@,
        decreases origins@.len() - i,
    {
        if origins[i] == *origin {
            return true;
        }
        i = i + 1;
    }
    false
}

/// Grade a whole Local Storage store, returning every anomaly it exhibits,
/// record by record. Cross-record checks (orphaned data) make this operate
/// over the full record set. Tombstones are skipped, and `Other` records (the
/// store's own housekeeping rows) are never graded.
pub fn analyze(records: &[LocalStorageRecord]) -> (out: Vec<LsAnomaly>)
    ensures
        graded_as(out@, ls_findings(records@, records@)),
{
    let meta_origins = live_meta_origins(records);
    let mut out: Vec<LsAnomaly> = Vec::new();
    let mut i: usize = 0;
    while i < records.len()
        invariant
            i <= records@.len(),
            forall|o: Seq<char>|
                has_live_meta(records@, o) <==> exists|k: int|
                    0 <= k < meta_origins@.len() && (#[trigger] meta_origins@[k])@ == o,
            graded_as(out@, ls_findings(records@, records@.subrange(0, i as int))),
        decreases records@.len() - i,
    {
        let ghost pre = records@.subrange(0, i as int);
        let ghost post = records@.subrange(0, i + 1);
        assert(post.drop_last() =~= pre);
        assert(post.last() == records@[i as int]);
        let ghost old_out = out@;
        match &records[i] {
            LocalStorageRecord::Meta { origin, timestamp_webkit_micros, deleted, .. } => {
                if !*deleted && *timestamp_webkit_micros < WEBKIT_MICROS_2010 {
                    out.push(
                        LsAnomaly::new(
                            LsAnomalyKind::ImplausibleMetaTimestamp {
                                origin: origin.clone(),
                                timestamp_webkit_micros: *timestamp_webkit_micros,
                            },
                        ),
                    );
                }
            },
            LocalStorageRecord::Data { origin, deleted, .. } => {
                if !*deleted && !contains_origin(&meta_origins, origin) {
                    out.push(LsAnomaly::new(LsAnomalyKind::OrphanedData { origin: origin.clone() }));
                }
            },
            LocalStorageRecord::Other { .. } => {},
        }
        assert forall|k: int| 0 <= k < out@.len() implies (#[trigger] out@[k]).finding_kind()
            == ls_findings(records@, post)[k] && out@[k].graded() by {
            if k < old_out.len() {
                assert(out@[k] == old_out[k]);
            }
        }
        i = i + 1;
    }
    assert(records@.subrange(0, records@.len() as int) =~= records@);
    out
}


// ── Laws ────────────────────────────────────────────────────────────────────

/// Whether a record is never graded by itself and never vouches for an
/// origin: a housekeeping `Other` row or a deletion tombstone.
pub open spec fn is_ungraded(r: LocalStorageRecord) -> bool {
    match r {
        LocalStorageRecord::Other { .. } => true,
        LocalStorageRecord::Meta { deleted, .. } => deleted,
        LocalStorageRecord::Data { deleted, .. } => deleted,
    }
}

/// Findings depend on the store only through which origins have live `META`.
proof fn lemma_findings_follow_live_meta(
    a: Seq<LocalStorageRecord>,
    b: Seq<LocalStorageRecord>,
    rs: Seq<LocalStorageRecord>,
)
    requires
        forall|o: Seq<char>| has_live_meta(a, o) == has_live_meta(b, o),
    ensures
        ls_findings(a, rs) == ls_findings(b, rs),
    decreases rs.len(),
{
    if rs.len() > 0 {
        lemma_findings_follow_live_meta(a, b, rs.drop_last());
        match rs.last() {
            LocalStorageRecord::Data { origin, .. } => {
                assert(has_live_meta(a, origin@) == has_live_meta(b, origin@));
            },
            _ => {},
        }
    }
}

/// Housekeeping rows and tombstones are not anomalies: adding an `Other` row
/// (such as `VERSION`) or a deletion tombstone to a store leaves its findings
/// unchanged.
pub proof fn lemma_ungraded_records_change_nothing(
    all: Seq<LocalStorageRecord>,
    r: LocalStorageRecord,
)
    requires
        is_ungraded(r),
    ensures
        ls_findings(all.push(r), all.push(r)) == ls_findings(all, all),
{
    let bigger = all.push(r);
    assert forall|o: Seq<char>| has_live_meta(bigger, o) == has_live_meta(all, o) by {
        if has_live_meta(bigger, o) {
            let i = choose|i: int|
                0 <= i < bigger.len() && (#[trigger] bigger[i] matches LocalStorageRecord::Meta {
                    origin: og,
                    deleted,
                    ..
                } && !deleted && og@ == o);
            assert(i < all.len());
            assert(bigger[i] == all[i]);
        }
        if has_live_meta(all, o) {
            let i = choose|i: int|
                0 <= i < all.len() && (#[trigger] all[i] matches LocalStorageRecord::Meta {
                    origin: og,
                    deleted,
                    ..
                } && !deleted && og@ == o);
            assert(bigger[i] == all[i]);
        }
    }
    lemma_findings_follow_live_meta(bigger, all, all);
    assert(bigger.drop_last() =~= all);
    assert(ls_record_findings(bigger, r) =~= Seq::<LsAnomalyKind>::empty());
    assert(ls_findings(bigger, bigger) =~= ls_findings(bigger, all));
}

/// Codes are never shared between the two kinds.
pub proof fn lemma_ls_codes_distinct(a: LsAnomalyKind, b: LsAnomalyKind)
    ensures
        ls_code(a) == ls_code(b) ==> (a is ImplausibleMetaTimestamp <==> b is ImplausibleMetaTimestamp),
{
    reveal_strlit("LS-META-TIME-IMPLAUSIBLE");
    reveal_strlit("LS-DATA-ORPHANED");
    assert("LS-META-TIME-IMPLAUSIBLE"@.len() == 24);
    assert("LS-DATA-ORPHANED"@.len() == 16);
}

} // verus!
