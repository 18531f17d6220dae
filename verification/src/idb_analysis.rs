//! IndexedDB forensic analyzer: graded observations over decoded records.
//!
//! Every finding is grounded in a state the reader itself surfaced: a value
//! it could not deserialize, a record whose database or object-store metadata
//! it could not resolve. Each is an observation ("consistent with"), never a
//! conclusion.

use vstd::prelude::*;
use crate::indexeddb::{IndexedDbRecord, RecordValue};
use crate::report::{Category, Severity};
use crate::text::{decimal, push_decimal, push_str, push_string, string_from_chars};

verus! {

/// A graded anomaly observed in an IndexedDB record.
#[derive(Debug, Clone, PartialEq, Eq)]
pub enum IdbAnomalyKind {
    /// The record's value could not be deserialized from Blink's V8
    /// structured-clone format; the reader kept the raw bytes and the error.
    ValueUndecodable { database_id: u64, object_store_id: u64, error: String },
    /// The record's database or object-store id resolves to no name in the
    /// store's own metadata index.
    OrphanedRecord {
        database_id: u64,
        object_store_id: u64,
        database_resolved: bool,
        object_store_resolved: bool,
    },
}

/// The severity of each kind.
pub open spec fn idb_severity(k: IdbAnomalyKind) -> Severity {
    match k {
        IdbAnomalyKind::ValueUndecodable { .. } => Severity::Medium,
        IdbAnomalyKind::OrphanedRecord { .. } => Severity::Low,
    }
}

/// The stable machine-readable code of each kind.
pub open spec fn idb_code(k: IdbAnomalyKind) -> Seq<char> {
    match k {
        IdbAnomalyKind::ValueUndecodable { .. } => "IDB-VALUE-UNDECODABLE"@,
        IdbAnomalyKind::OrphanedRecord { .. } => "IDB-RECORD-ORPHANED"@,
    }
}

/// Which names an orphaned record fails to resolve, in words.
pub open spec fn missing_names(database_resolved: bool, object_store_resolved: bool) -> Seq<char> {
    if !database_resolved && !object_store_resolved {
        "neither the database nor the object-store name"@
    } else if !database_resolved {
        "the database name"@
    } else if !object_store_resolved {
        "the object-store name"@
    } else {
        "no name (unexpected)"@
    }
}

/// The human-readable note of each kind.
pub open spec fn idb_note(k: IdbAnomalyKind) -> Seq<char> {
    match k {
        IdbAnomalyKind::ValueUndecodable { database_id, object_store_id, error } =>
            "IndexedDB value (database "@ + decimal(database_id as nat) + ", object store "@
            + decimal(object_store_id as nat)
            + ") could not be decoded from the Blink V8 structured-clone format: "@ + error@
            + " \u{2014} consistent with a truncated, corrupted, or tampered value"@,
        IdbAnomalyKind::OrphanedRecord {
            database_id,
            object_store_id,
            database_resolved,
            object_store_resolved,
        } => "IndexedDB record (database "@ + decimal(database_id as nat) + ", object store "@
            + decimal(object_store_id as nat) + ") resolves "@ + missing_names(
            database_resolved,
            object_store_resolved,
        )
            + " in the store's metadata index \u{2014} consistent with an orphaned record whose metadata row is missing"@,
    }
}

impl IdbAnomalyKind {
    /// Severity: the single source of truth.
    pub fn severity(&self) -> (s: Severity)
        ensures
            s == idb_severity(*self),
    {
        match self {
            IdbAnomalyKind::ValueUndecodable { .. } => Severity::Medium,
            IdbAnomalyKind::OrphanedRecord { .. } => Severity::Low,
        }
    }

    /// Analytical lens: always integrity.
    pub fn category(&self) -> (c: Category)
        ensures
            c == Category::Integrity,
    {
        Category::Integrity
    }

    /// Stable machine-readable code (a published contract, never reused).
    pub fn code(&self) -> (c: &'static str)
        ensures
            c@ == idb_code(*self),
    {
        match self {
            IdbAnomalyKind::ValueUndecodable { .. } => "IDB-VALUE-UNDECODABLE",
            IdbAnomalyKind::OrphanedRecord { .. } => "IDB-RECORD-ORPHANED",
        }
    }

    /// Human-readable note (an observation, not a conclusion).
    pub fn note(&self) -> (n: String)
        ensures
            n@ == idb_note(*self),
    {
        let mut out: Vec<char> = Vec::new();
        match self {
            IdbAnomalyKind::ValueUndecodable { database_id, object_store_id, error } => {
                push_str(&mut out, "IndexedDB value (database ");
                push_decimal(&mut out, *database_id);
                push_str(&mut out, ", object store ");
                push_decimal(&mut out, *object_store_id);
                push_str(
                    &mut out,
                    ") could not be decoded from the Blink V8 structured-clone format: ",
                );
                push_string(&mut out, error);
                push_str(
                    &mut out,
                    " \u{2014} consistent with a truncated, corrupted, or tampered value",
                );
            },
            IdbAnomalyKind::OrphanedRecord {
                database_id,
                object_store_id,
                database_resolved,
                object_store_resolved,
            } => {
                let missing = if !*database_resolved && !*object_store_resolved {
                    "neither the database nor the object-store name"
                } else if !*database_resolved {
                    "the database name"
                } else if !*object_store_resolved {
                    "the object-store name"
                } else {
                    "no name (unexpected)"
                };
                push_str(&mut out, "IndexedDB record (database ");
                push_decimal(&mut out, *database_id);
                push_str(&mut out, ", object store ");
                push_decimal(&mut out, *object_store_id);
                push_str(&mut out, ") resolves ");
                push_str(&mut out, missing);
                push_str(
                    &mut out,
                    " in the store's metadata index \u{2014} consistent with an orphaned record whose metadata row is missing",
                );
            },
        }
        assert(out@ =~= idb_note(*self));
        string_from_chars(&out)
    }
}

/// A graded finding: an [`IdbAnomalyKind`] plus its derived severity, code and
/// note.
#[derive(Debug, Clone)]
pub struct IdbAnomaly {
    pub kind: IdbAnomalyKind,
    severity: Severity,
    code: &'static str,
    note: String,
}

impl IdbAnomaly {
    /// The finding's kind (its `kind` field).
    pub closed spec fn finding_kind(self) -> IdbAnomalyKind {
        self.kind
    }

    /// The severity recorded when the finding was made.
    pub closed spec fn recorded_severity(self) -> Severity {
        self.severity
    }

    /// The code recorded when the finding was made.
    pub closed spec fn recorded_code(self) -> Seq<char> {
        self.code@
    }

    /// The note recorded when the finding was made.
    pub closed spec fn recorded_note(self) -> Seq<char> {
        self.note@
    }

    /// A finding whose recorded severity, code and note are its kind's.
    pub open spec fn graded(self) -> bool {
        &&& self.recorded_severity() == idb_severity(self.finding_kind())
        &&& self.recorded_code() == idb_code(self.finding_kind())
        &&& self.recorded_note() == idb_note(self.finding_kind())
    }

    /// Grade `kind`: derive its severity, code and note once.
    pub fn new(kind: IdbAnomalyKind) -> (a: Self)
        ensures
            a.finding_kind() == kind,
            a.graded(),
    {
        let severity = kind.severity();
        let code = kind.code();
        let note = kind.note();
        IdbAnomaly { kind, severity, code, note }
    }

    /// The recorded severity.
    pub fn severity(&self) -> (s: Severity)
        ensures
            s == self.recorded_severity(),
    {
        self.severity
    }

    /// The recorded code.
    pub fn code(&self) -> (c: &'static str)
        ensures
            c@ == self.recorded_code(),
    {
        self.code
    }

    /// The recorded note.
    pub fn note(&self) -> (n: String)
        ensures
            n@ == self.recorded_note(),
    {
        self.note.clone()
    }

    /// The analytical lens: always integrity.
    pub fn category(&self) -> (c: Category)
        ensures
            c == Category::Integrity,
    {
        self.kind.category()
    }
}

/// The kinds of anomaly one record exhibits: an undecodable value, then a
/// database or object-store name that did not resolve.
pub open spec fn record_findings(r: IndexedDbRecord) -> Seq<IdbAnomalyKind> {
    let a = match r.value {
        RecordValue::Undecoded { error, .. } => seq![
            IdbAnomalyKind::ValueUndecodable {
                database_id: r.database_id,
                object_store_id: r.object_store_id,
                error,
            },
        ],
        RecordValue::V8(_) => Seq::empty(),
    };
    let b = if r.database is None || r.object_store is None {
        seq![
            IdbAnomalyKind::OrphanedRecord {
                database_id: r.database_id,
                object_store_id: r.object_store_id,
                database_resolved: r.database is Some,
                object_store_resolved: r.object_store is Some,
            },
        ]
    } else {
        Seq::empty()
    };
    a + b
}

/// The findings of every record of a store, record by record, in order.
pub open spec fn store_findings(rs: Seq<IndexedDbRecord>) -> Seq<IdbAnomalyKind>
    decreases rs.len(),
{
    if rs.len() == 0 {
        Seq::empty()
    } else {
        store_findings(rs.drop_last()) + record_findings(rs.last())
    }
}

/// The database and object-store ids a finding names.
pub open spec fn finding_ids(k: IdbAnomalyKind) -> (u64, u64) {
    match k {
        IdbAnomalyKind::ValueUndecodable { database_id, object_store_id, .. } => (
            database_id,
            object_store_id,
        ),
        IdbAnomalyKind::OrphanedRecord { database_id, object_store_id, .. } => (
            database_id,
            object_store_id,
        ),
    }
}

/// Every finding names the record it was found in: its database id is the
/// record's database id and its object-store id the record's object-store
/// id.
pub proof fn lemma_findings_name_their_record(r: IndexedDbRecord)
    ensures
        forall|i: int|
            0 <= i < record_findings(r).len() ==> #[trigger] finding_ids(record_findings(r)[i]) == (
                r.database_id,
                r.object_store_id,
            ),
{
}

/// Every finding of a store names one of its records: its ids are the
/// database and object-store ids of some record of the store.
pub proof fn lemma_store_findings_name_a_record(rs: Seq<IndexedDbRecord>)
    ensures
        forall|i: int|
            0 <= i < store_findings(rs).len() ==> exists|j: int|
                0 <= j < rs.len() && #[trigger] finding_ids(store_findings(rs)[i]) == (
                    rs[j].database_id,
                    rs[j].object_store_id,
                ),
    decreases rs.len(),
{
    if rs.len() > 0 {
        let pre = rs.drop_last();
        lemma_store_findings_name_a_record(pre);
        lemma_findings_name_their_record(rs.last());
        let a = store_findings(pre);
        let b = record_findings(rs.last());
        assert forall|i: int| 0 <= i < store_findings(rs).len() implies exists|j: int|
            0 <= j < rs.len() && #[trigger] finding_ids(store_findings(rs)[i]) == (
                rs[j].database_id,
                rs[j].object_store_id,
            ) by {
            if i < a.len() {
                assert(store_findings(rs)[i] == a[i]);
                let j = choose|j: int|
                    0 <= j < pre.len() && #[trigger] finding_ids(a[i]) == (
                        pre[j].database_id,
                        pre[j].object_store_id,
                    );
                assert(pre[j] == rs[j]);
            } else {
                assert(store_findings(rs)[i] == b[i - a.len()]);
                assert(finding_ids(b[i - a.len()]) == (rs.last().database_id, rs.last().object_store_id));
                assert(rs[rs.len() - 1] == rs.last());
            }
        }
    }
}

/// Whether `out` is exactly the graded findings `kinds`, in order.
pub open spec fn graded_as(out: Seq<IdbAnomaly>, kinds: Seq<IdbAnomalyKind>) -> bool {
    &&& out.len() == kinds.len()
    &&& forall|i: int|
        0 <= i < out.len() ==> (#[trigger] out[i]).finding_kind() == kinds[i] && out[i].graded()
}

/// Append the graded findings of one record to `out`.
fn push_record_findings(out: &mut Vec<IdbAnomaly>, record: &IndexedDbRecord)
    ensures
        final(out)@.len() == old(out)@.len() + record_findings(*record).len(),
        forall|i: int| 0 <= i < old(out)@.len() ==> final(out)@[i] == old(out)@[i],
        forall|i: int|
            0 <= i < record_findings(*record).len() ==> (#[trigger] final(out)@[old(out)@.len()
                + i]).finding_kind() == record_findings(*record)[i] && final(out)@[old(
                out,
            )@.len() + i].graded(),
{
    if let RecordValue::Undecoded { error, .. } = &record.value {
        out.push(
            IdbAnomaly::new(
                IdbAnomalyKind::ValueUndecodable {
                    database_id: record.database_id,
                    object_store_id: record.object_store_id,
                    error: error.clone(),
                },
            ),
        );
    }
    let db_ok = record.database.is_some();
    let os_ok = record.object_store.is_some();
    if !db_ok || !os_ok {
        out.push(
            IdbAnomaly::new(
                IdbAnomalyKind::OrphanedRecord {
                    database_id: record.database_id,
                    object_store_id: record.object_store_id,
                    database_resolved: db_ok,
                    object_store_resolved: os_ok,
                },
            ),
        );
    }
}

/// Grade a single decoded IndexedDB record, returning every anomaly it
/// exhibits. A record whose value decoded and whose names both resolved
/// returns an empty vector.
pub fn analyze_record(record: &IndexedDbRecord) -> (out: Vec<IdbAnomaly>)
    ensures
        graded_as(out@, record_findings(*record)),
        forall|i: int|
            0 <= i < out@.len() ==> finding_ids(#[trigger] out@[i].finding_kind()) == (
                record.database_id,
                record.object_store_id,
            ),
{
    proof {
        lemma_findings_name_their_record(*record);
    }
    let mut out: Vec<IdbAnomaly> = Vec::new();
    push_record_findings(&mut out, record);
    assert forall|k: int| 0 <= k < out@.len() implies (#[trigger] out@[k]).finding_kind()
        == record_findings(*record)[k] && out@[k].graded() by {
        assert(out@[0 + k] == out@[k]);
    }
    out
}

/// Grade every record in a store, flattening per-record findings in order.
pub fn analyze(records: &[IndexedDbRecord]) -> (out: Vec<IdbAnomaly>)
    ensures
        graded_as(out@, store_findings(records@)),
{
    let mut out: Vec<IdbAnomaly> = Vec::new();
    let mut i: usize = 0;
    while i < records.len()
        invariant
            i <= records@.len(),
            graded_as(out@, store_findings(records@.subrange(0, i as int))),
        decreases records@.len() - i,
    {
        let ghost pre = records@.subrange(0, i as int);
        let ghost post = records@.subrange(0, i + 1);
        assert(post.drop_last() =~= pre);
        assert(post.last() == records@[i as int]);
        let ghost old_out = out@;
        push_record_findings(&mut out, &records[i]);
        assert forall|k: int| 0 <= k < out@.len() implies (#[trigger] out@[k]).finding_kind()
            == store_findings(post)[k] && out@[k].graded() by {
            if k >= old_out.len() {
                let m = k - old_out.len();
                assert(out@[old_out.len() + m] == out@[k]);
            }
        }
        i = i + 1;
    }
    assert(records@.subrange(0, records@.len() as int) =~= records@);
    out
}


// ── Laws ────────────────────────────────────────────────────────────────────

/// Clean records are true negatives: a record exhibits no anomaly exactly
/// when its value decoded and both its database and object-store names
/// resolved.
pub proof fn lemma_clean_record_has_no_findings(r: IndexedDbRecord)
    ensures
        record_findings(r).len() == 0 <==> (r.value is V8 && r.database is Some && r.object_store
            is Some),
{
}

/// A store of clean records exhibits no anomaly.
pub proof fn lemma_clean_store_has_no_findings(rs: Seq<IndexedDbRecord>)
    requires
        forall|i: int|
            0 <= i < rs.len() ==> (#[trigger] rs[i]).value is V8 && rs[i].database is Some
                && rs[i].object_store is Some,
    ensures
        store_findings(rs).len() == 0,
    decreases rs.len(),
{
    if rs.len() > 0 {
        lemma_clean_store_has_no_findings(rs.drop_last());
        assert(rs.last() == rs[rs.len() - 1]);
    }
}

/// Codes are never shared between the two kinds.
pub proof fn lemma_idb_codes_distinct(a: IdbAnomalyKind, b: IdbAnomalyKind)
    ensures
        idb_code(a) == idb_code(b) ==> (a is ValueUndecodable <==> b is ValueUndecodable),
{
    reveal_strlit("IDB-VALUE-UNDECODABLE");
    reveal_strlit("IDB-RECORD-ORPHANED");
    assert("IDB-VALUE-UNDECODABLE"@.len() == 21);
    assert("IDB-RECORD-ORPHANED"@.len() == 19);
}

} // verus!
