//! The record store: a durable mapping from unique names to encrypted
//! blobs, with creation on first write, full replacement on name
//! collision, and listings ordered by recency and by name.
//!
//! The store's logic lives here, verified over an in-memory record
//! table; the layer around the library moves that table to and from
//! disk.

use vstd::prelude::*;
use crate::errors::SnipError;

verus! {

/// One row per snippet name. Timestamps are seconds; the four
/// trailing optional fields are reserved for a future sync feature and
/// round-trip through the store untouched.
#[derive(Debug)]
pub struct Snippet {
    pub id: i64,
    pub name: String,
    pub content_encrypted: String,
    pub created_at: u64,
    pub updated_at: u64,
    pub user_id: Option<String>,
    pub team_id: Option<String>,
    pub synced_at: Option<String>,
    pub sync_status: Option<String>,
}

fn clone_opt_string(o: &Option<String>) -> (r: Option<String>)
    ensures
        r == o,
{
    match o {
        Some(s) => Some(s.clone()),
        None => None,
    }
}

impl Clone for Snippet {
    /// A clone carries exactly the same record.
    fn clone(&self) -> (r: Self)
        ensures
            r == self,
    {
        Snippet {
            id: self.id,
            name: self.name.clone(),
            content_encrypted: self.content_encrypted.clone(),
            created_at: self.created_at,
            updated_at: self.updated_at,
            user_id: clone_opt_string(&self.user_id),
            team_id: clone_opt_string(&self.team_id),
            synced_at: clone_opt_string(&self.synced_at),
            sync_status: clone_opt_string(&self.sync_status),
        }
    }
}

/// Whether some record in `s` bears `name`.
pub open spec fn has_record(s: Seq<Snippet>, name: Seq<char>) -> bool {
    exists|i: int| 0 <= i < s.len() && s[i].name@ == name
}

/// The index of the record bearing `name` (unique when the store is
/// well formed).
pub open spec fn record_index(s: Seq<Snippet>, name: Seq<char>) -> int {
    choose|i: int| 0 <= i < s.len() && s[i].name@ == name
}

/// How many records in `s` bear `name`.
pub open spec fn count_name(s: Seq<Snippet>, name: Seq<char>) -> nat
    decreases s.len(),
{
    if s.len() == 0 {
        0
    } else {
        (if s.last().name@ == name {
            1nat
        } else {
            0nat
        }) + count_name(s.drop_last(), name)
    }
}

/// `after` is `before` with its ciphertext replaced and its
/// `updated_at` refreshed; identity, creation time and the reserved
/// sync fields are untouched.
pub open spec fn replaces(before: Snippet, after: Snippet, ct: Seq<char>, now: u64) -> bool {
    &&& after.id == before.id
    &&& after.name@ == before.name@
    &&& after.content_encrypted@ == ct
    &&& after.created_at == before.created_at
    &&& after.updated_at == now
    &&& after.user_id == before.user_id
    &&& after.team_id == before.team_id
    &&& after.synced_at == before.synced_at
    &&& after.sync_status == before.sync_status
}

/// A record created on first save: fresh id, both timestamps set to
/// the save time, reserved fields empty.
pub open spec fn is_fresh(snip: Snippet, id: i64, name: Seq<char>, ct: Seq<char>, now: u64) -> bool {
    &&& snip.id == id
    &&& snip.name@ == name
    &&& snip.content_encrypted@ == ct
    &&& snip.created_at == now
    &&& snip.updated_at == now
    &&& snip.user_id is None
    &&& snip.team_id is None
    &&& snip.synced_at is None
    &&& snip.sync_status is None
}

/// Rows that may enter a store: names pairwise distinct, ids pairwise
/// distinct and below the largest id value, so a fresh id remains.
pub open spec fn rows_ok(s: Seq<Snippet>) -> bool {
    &&& forall|i: int, j: int| 0 <= i < j < s.len() ==> s[i].name@ != s[j].name@
    &&& forall|i: int, j: int| 0 <= i < j < s.len() ==> s[i].id != s[j].id
    &&& forall|i: int| 0 <= i < s.len() ==> s[i].id < i64::MAX
}

/// The store. Its view is the sequence of records in insertion order.
#[derive(Debug)]
pub struct Database {
    records: Vec<Snippet>,
    next_id: i64,
}

impl View for Database {
    type V = Seq<Snippet>;

    closed spec fn view(&self) -> Seq<Snippet> {
        self.records@
    }
}

/// Exactly what one `save_snippet` call does to a store: on a name
/// collision the one record with that name is fully replaced in place
/// (id and `created_at` kept); otherwise a fresh record is appended
/// and the id counter advances.
pub open spec fn saved(pre: Database, post: Database, name: Seq<char>, ct: Seq<char>, now: u64) -> bool {
    if has_record(pre@, name) {
        let i = record_index(pre@, name);
        &&& post@.len() == pre@.len()
        &&& post@ == pre@.update(i, post@[i])
        &&& replaces(pre@[i], post@[i], ct, now)
        &&& post.next_id() == pre.next_id()
    } else {
        &&& post@.len() == pre@.len() + 1
        &&& post@.take(pre@.len() as int) == pre@
        &&& is_fresh(post@[pre@.len() as int], pre.next_id(), name, ct, now)
        &&& post.next_id() == pre.next_id() + 1
    }
}

impl Database {
    /// The next id the store will assign.
    pub closed spec fn next_id(self) -> i64 {
        self.next_id
    }

    /// The names the records bear, in store order.
    pub open spec fn name_seq(self) -> Seq<Seq<char>> {
        Seq::new(self@.len(), |k: int| self@[k].name@)
    }

    /// Well-formedness: no two records share a name or an id, and
    /// every id lies below the id counter.
    pub open spec fn wf(self) -> bool {
        &&& forall|i: int, j: int| 0 <= i < j < self@.len() ==> self@[i].name@ != self@[j].name@
        &&& forall|i: int, j: int| 0 <= i < j < self@.len() ==> self@[i].id != self@[j].id
        &&& forall|i: int| 0 <= i < self@.len() ==> self@[i].id < self.next_id()
    }

    /// A fresh, empty store. Ids start at 1.
    pub fn new() -> (r: Database)
        ensures
            r.wf(),
            r@ == Seq::<Snippet>::empty(),
            r.next_id() == 1,
    {
        Database { records: Vec::new(), next_id: 1 }
    }

    /// Build a store from rows read back from persistence. Accepts
    /// exactly the row sets a store can hold (unique names and ids,
    /// with room left for a fresh id); anything else is a sign of a
    /// corrupt store and is refused as `StorageUnavailable`.
    pub fn from_records(rows: Vec<Snippet>) -> (r: Result<Database, SnipError>)
        ensures
            r matches Ok(db) ==> db.wf() && db@ == rows@,
            r is Ok <==> rows_ok(rows@),
            r matches Err(e) ==> e == SnipError::StorageUnavailable,
    {
        let n = rows.len();
        let mut next: i64 = 1;
        let mut i: usize = 0;
        while i < n
            invariant
                n == rows@.len(),
                0 <= i <= n,
                forall|p: int, q: int| 0 <= p < q < i ==> rows@[p].name@ != rows@[q].name@,
                forall|p: int, q: int| 0 <= p < q < i ==> rows@[p].id != rows@[q].id,
                forall|p: int| 0 <= p < i ==> rows@[p].id < i64::MAX,
                forall|p: int| 0 <= p < i ==> rows@[p].id < next,
                next >= 1,
            decreases n - i,
        {
            if rows[i].id == i64::MAX {
                return Err(SnipError::StorageUnavailable);
            }
            let mut j: usize = 0;
            while j < i
                invariant
                    n == rows@.len(),
                    0 <= j <= i < n,
                    forall|p: int| 0 <= p < j ==> rows@[p].name@ != rows@[i as int].name@,
                    forall|p: int| 0 <= p < j ==> rows@[p].id != rows@[i as int].id,
                decreases i - j,
            {
                if rows[j].name.eq(&rows[i].name) || rows[j].id == rows[i].id {
                    return Err(SnipError::StorageUnavailable);
                }
                j += 1;
            }
            if rows[i].id >= next {
                next = rows[i].id + 1;
            }
            i += 1;
        }
        Ok(Database { records: rows, next_id: next })
    }

    /// Whether the store can still assign a fresh id; callers outside
    /// the library test this before saving.
    pub fn can_assign_id(&self) -> (r: bool)
        ensures
            r == (self.next_id() < i64::MAX),
    {
        self.next_id < i64::MAX
    }

    /// Exact-match lookup: the record bearing `name`, or absence — a
    /// normal result, not an error.
    pub fn get_snippet(&self, name: &str) -> (r: Option<Snippet>)
        requires
            self.wf(),
        ensures
            r is Some <==> has_record(self@, name@),
            r matches Some(s) ==> s == self@[record_index(self@, name@)] && s.name@ == name@,
    {
        let name_owned: String = name.to_owned();
        let n = self.records.len();
        let mut i: usize = 0;
        while i < n
            invariant
                self.wf(),
                n == self@.len(),
                0 <= i <= n,
                name_owned@ == name@,
                forall|p: int| 0 <= p < i ==> self@[p].name@ != name@,
            decreases n - i,
        {
            if self.records[i].name.eq(&name_owned) {
                let found = self.records[i].clone();
                proof {
                    let k = record_index(self@, name@);
                    assert(0 <= k < self@.len() && self@[k].name@ == name@);
                    assert(k == i as int);
                }
                return Some(found);
            }
            i += 1;
        }
        None
    }

    /// Insert-or-replace by name. One record with `name` holds
    /// afterwards; on collision only the ciphertext and `updated_at`
    /// change, and `id`/`created_at` stay.
    pub fn save_snippet(&mut self, name: &str, encrypted_content: &str, now: u64)
        requires
            old(self).wf(),
            has_record(old(self)@, name@) || old(self).next_id() < i64::MAX,
        ensures
            final(self).wf(),
            saved(*old(self), *final(self), name@, encrypted_content@, now),
    {
        let name_owned: String = name.to_owned();
        let n = self.records.len();
        let mut i: usize = 0;
        while i < n
            invariant
                self == old(self),
                self.wf(),
                n == self@.len(),
                0 <= i <= n,
                name_owned@ == name@,
                forall|p: int| 0 <= p < i ==> self@[p].name@ != name@,
            decreases n - i,
        {
            if self.records[i].name.eq(&name_owned) {
                let before = self.records.remove(i);
                let after = Snippet {
                    content_encrypted: encrypted_content.to_owned(),
                    updated_at: now,
                    ..before
                };
                self.records.insert(i, after);
                proof {
                    assert(self@ =~= old(self)@.update(i as int, self@[i as int]));
                    let k = record_index(old(self)@, name@);
                    assert(0 <= k < old(self)@.len() && old(self)@[k].name@ == name@);
                    assert(k == i as int);
                }
                return;
            }
            i += 1;
        }
        proof {
            assert(!has_record(old(self)@, name@));
        }
        let fresh = Snippet {
            id: self.next_id,
            name: name_owned,
            content_encrypted: encrypted_content.to_owned(),
            created_at: now,
            updated_at: now,
            user_id: None,
            team_id: None,
            synced_at: None,
            sync_status: None,
        };
        self.records.push(fresh);
        self.next_id = self.next_id + 1;
        proof {
            assert(self@.take(old(self)@.len() as int) =~= old(self)@);
        }
    }
}

/// The listing order of `list_snippets`: most recently touched first,
/// ties split by id so that the order is total over a well-formed
/// store.
pub open spec fn recency_before(a: Snippet, b: Snippet) -> bool {
    a.updated_at > b.updated_at || (a.updated_at == b.updated_at && a.id < b.id)
}

fn snippet_before(a: &Snippet, b: &Snippet) -> (r: bool)
    ensures
        r == recency_before(*a, *b),
{
    a.updated_at > b.updated_at || (a.updated_at == b.updated_at && a.id < b.id)
}

/// Strict lexicographic order on text, by scalar value.
pub open spec fn lex_lt(a: Seq<char>, b: Seq<char>) -> bool
    decreases a.len(),
{
    if b.len() == 0 {
        false
    } else if a.len() == 0 {
        true
    } else if a[0] != b[0] {
        (a[0] as u32) < (b[0] as u32)
    } else {
        lex_lt(a.skip(1), b.skip(1))
    }
}

/// Two distinct texts are strictly ordered one way or the other.
pub proof fn lemma_lex_trichotomy(a: Seq<char>, b: Seq<char>)
    ensures
        a == b || lex_lt(a, b) || lex_lt(b, a),
    decreases a.len(),
{
    if b.len() == 0 {
        if a.len() == 0 {
            assert(a =~= b);
        }
    } else if a.len() == 0 {
    } else if a[0] != b[0] {
        if (a[0] as u32) == (b[0] as u32) {
            vstd::utf8::char_u32_cast(a[0], a[0] as u32);
            vstd::utf8::char_u32_cast(b[0], b[0] as u32);
            assert(false);
        }
    } else {
        lemma_lex_trichotomy(a.skip(1), b.skip(1));
        if a.skip(1) == b.skip(1) {
            assert forall|k: int| 0 <= k < a.len() implies a[k] == b[k] by {
                if k > 0 {
                    assert(a[k] == a.skip(1)[k - 1]);
                    assert(b[k] == b.skip(1)[k - 1]);
                }
            }
            assert(a =~= b);
        }
    }
}

/// Lexicographic order is transitive.
pub proof fn lemma_lex_transitive(a: Seq<char>, b: Seq<char>, c: Seq<char>)
    requires
        lex_lt(a, b),
        lex_lt(b, c),
    ensures
        lex_lt(a, c),
    decreases a.len(),
{
    if c.len() == 0 {
        assert(false);
    } else if a.len() == 0 {
    } else {
        assert(b.len() > 0);
        if a[0] == b[0] && b[0] == c[0] {
            lemma_lex_transitive(a.skip(1), b.skip(1), c.skip(1));
        }
    }
}

/// Compare two strings in the lexicographic order.
fn str_lt(a: &str, b: &str) -> (r: bool)
    ensures
        r == lex_lt(a@, b@),
{
    let a_len = a.unicode_len();
    let b_len = b.unicode_len();
    let mut i: usize = 0;
    proof {
        assert(a@.skip(0) =~= a@);
        assert(b@.skip(0) =~= b@);
    }
    loop
        invariant
            a_len == a@.len(),
            b_len == b@.len(),
            0 <= i <= a_len,
            0 <= i <= b_len,
            lex_lt(a@, b@) == lex_lt(a@.skip(i as int), b@.skip(i as int)),
        decreases a_len - i,
    {
        if i >= b_len {
            return false;
        }
        if i >= a_len {
            return true;
        }
        let ca = a.get_char(i);
        let cb = b.get_char(i);
        if ca != cb {
            return (ca as u32) < (cb as u32);
        }
        proof {
            assert(a@.skip(i as int).skip(1) =~= a@.skip(i as int + 1));
            assert(b@.skip(i as int).skip(1) =~= b@.skip(i as int + 1));
        }
        i += 1;
    }
}

/// Inserting anywhere into a sequence inserts into its multiset.
pub proof fn lemma_insert_to_multiset<A>(s: Seq<A>, j: int, x: A)
    requires
        0 <= j <= s.len(),
    ensures
        s.insert(j, x).to_multiset() == s.to_multiset().insert(x),
{
    broadcast use vstd::seq_lib::group_to_multiset_ensures;

    let t = s.insert(j, x);
    assert(t.remove(j) =~= s);
    assert(t[j] == x);
    assert(t.contains(x));
    assert(s.to_multiset() =~= t.to_multiset().remove(x));
    assert(t.to_multiset() =~= s.to_multiset().insert(x));
}

impl Database {
    /// All records, most recently updated first (ties by id). The
    /// result is a reordering of the store's full contents.
    pub fn list_snippets(&self) -> (r: Vec<Snippet>)
        requires
            self.wf(),
        ensures
            r@.to_multiset() == self@.to_multiset(),
            forall|p: int, q: int| 0 <= p < q < r@.len() ==> recency_before(r@[p], r@[q]),
    {
        proof {
            broadcast use vstd::seq_lib::group_to_multiset_ensures;
        }
        let n = self.records.len();
        let mut out: Vec<Snippet> = Vec::new();
        let mut i: usize = 0;
        while i < n
            invariant
                self.wf(),
                n == self@.len(),
                0 <= i <= n,
                out@.to_multiset() == self@.take(i as int).to_multiset(),
                forall|p: int, q: int| 0 <= p < q < out@.len() ==> recency_before(out@[p], out@[q]),
                forall|p: int| #![trigger out@[p]] 0 <= p < out@.len()
                    ==> exists|m: int| 0 <= m < i && out@[p] == #[trigger] self@[m],
            decreases n - i,
        {
            proof {
                broadcast use vstd::seq_lib::group_to_multiset_ensures;
            }
            let x = self.records[i].clone();
            let j = Self::recency_position(&out, &x);
            proof {
                let ghost old_out = out@;
                assert forall|k: int| 0 <= k < old_out.len() implies old_out[k].id != x.id by {
                    let m = choose|m: int| 0 <= m < i && old_out[k] == self@[m];
                    assert(self@[m].id != self@[i as int].id);
                }
                assert forall|k: int| j <= k < old_out.len() implies recency_before(x, old_out[k]) by {
                    assert(!recency_before(old_out[j as int], x));
                    assert(old_out[j as int].id != x.id);
                    assert(recency_before(x, old_out[j as int]));
                    if k > j {
                        assert(recency_before(old_out[j as int], old_out[k]));
                    }
                }
                lemma_insert_to_multiset(old_out, j as int, x);
                assert(self@.take(i as int + 1) =~= self@.take(i as int).push(self@[i as int]));
            }
            out.insert(j, x);
            i += 1;
        }
        proof {
            assert(self@.take(n as int) =~= self@);
        }
        out
    }

    /// The first position whose element does not come before `x`.
    fn recency_position(out: &Vec<Snippet>, x: &Snippet) -> (j: usize)
        ensures
            0 <= j <= out@.len(),
            forall|k: int| 0 <= k < j ==> recency_before(out@[k], *x),
            j < out@.len() ==> !recency_before(out@[j as int], *x),
    {
        let n = out.len();
        let mut j: usize = 0;
        while j < n
            invariant
                n == out@.len(),
                0 <= j <= n,
                forall|k: int| 0 <= k < j ==> recency_before(out@[k], *x),
            decreases n - j,
        {
            if !snippet_before(&out[j], x) {
                return j;
            }
            j += 1;
        }
        j
    }

    /// All names, in lexicographically ascending order: exactly the
    /// names the store's records bear, each exactly once.
    pub fn get_all_names(&self) -> (r: Vec<String>)
        requires
            self.wf(),
        ensures
            r@.len() == self@.len(),
            forall|p: int, q: int| 0 <= p < q < r@.len() ==> lex_lt(r@[p]@, r@[q]@),
            r.deep_view().to_multiset() == self.name_seq().to_multiset(),
    {
        proof {
            broadcast use vstd::seq_lib::group_to_multiset_ensures;
        }
        let ghost names = self.name_seq();
        let n = self.records.len();
        let mut out: Vec<String> = Vec::new();
        let mut i: usize = 0;
        proof {
            assert(out.deep_view() =~= names.take(0));
        }
        while i < n
            invariant
                self.wf(),
                n == self@.len(),
                0 <= i <= n,
                names == self.name_seq(),
                out@.len() == i,
                forall|p: int, q: int| 0 <= p < q < out@.len() ==> lex_lt(out@[p]@, out@[q]@),
                out.deep_view().to_multiset() == names.take(i as int).to_multiset(),
            decreases n - i,
        {
            proof {
                broadcast use vstd::seq_lib::group_to_multiset_ensures;
            }
            let x = self.records[i].name.clone();
            let j = name_position(&out, &x);
            let ghost old_out = out@;
            let ghost old_dv = out.deep_view();
            proof {
                assert(x@ == names[i as int]);
                assert forall|k: int| 0 <= k < old_dv.len() implies old_dv[k] != x@ by {
                    assert(old_dv.contains(old_dv[k]));
                    assert(names.take(i as int).to_multiset().count(old_dv[k]) > 0);
                    assert(names.take(i as int).contains(old_dv[k]));
                    let m = choose|m: int| 0 <= m < i && names.take(i as int)[m] == old_dv[k];
                    assert(self@[m].name@ != self@[i as int].name@);
                }
                assert forall|k: int| 0 <= k < old_dv.len() implies old_dv[k] == old_out[k]@ by {}
                assert forall|k: int| j <= k < old_dv.len() implies lex_lt(x@, old_dv[k]) by {
                    assert(!lex_lt(old_dv[j as int], x@));
                    lemma_lex_trichotomy(old_dv[j as int], x@);
                    assert(lex_lt(x@, old_dv[j as int]));
                    if k > j {
                        assert(lex_lt(old_dv[j as int], old_dv[k]));
                        lemma_lex_transitive(x@, old_dv[j as int], old_dv[k]);
                    }
                }
                lemma_sorted_name_insert(old_dv, j as int, x@);
                lemma_insert_to_multiset(old_dv, j as int, x@);
            }
            out.insert(j, x);
            proof {
                old_out.insert_ensures(j as int, x);
                old_dv.insert_ensures(j as int, x@);
                assert forall|k: int| 0 <= k < out.deep_view().len()
                    implies out.deep_view()[k] == old_dv.insert(j as int, x@)[k] by {
                    if k < j {
                        assert(out@[k] == old_out[k]);
                    } else if k == j {
                    } else {
                        assert(out@[k] == old_out[k - 1]);
                    }
                }
                assert(out.deep_view() =~= old_dv.insert(j as int, x@));
                assert forall|p: int, q: int| 0 <= p < q < out@.len()
                    implies lex_lt(out@[p]@, out@[q]@) by {
                    assert(out@[p]@ == out.deep_view()[p]);
                    assert(out@[q]@ == out.deep_view()[q]);
                }
                assert(names.take(i as int + 1) =~= names.take(i as int).push(names[i as int]));
                assert(names.take(i as int + 1).to_multiset()
                    == names.take(i as int).to_multiset().insert(names[i as int]));
            }
            i += 1;
        }
        proof {
            assert(names.take(n as int) =~= names);
        }
        out
    }
}

/// Inserting a name between the names before it and the names after
/// it keeps a name list sorted.
proof fn lemma_sorted_name_insert(s: Seq<Seq<char>>, j: int, x: Seq<char>)
    requires
        0 <= j <= s.len(),
        forall|p: int, q: int| 0 <= p < q < s.len() ==> lex_lt(s[p], s[q]),
        forall|k: int| 0 <= k < j ==> lex_lt(s[k], x),
        forall|k: int| j <= k < s.len() ==> lex_lt(x, s[k]),
    ensures
        forall|p: int, q: int| 0 <= p < q < s.insert(j, x).len()
            ==> lex_lt(s.insert(j, x)[p], s.insert(j, x)[q]),
{
    s.insert_ensures(j, x);
    let t = s.insert(j, x);
    assert forall|p: int, q: int| 0 <= p < q < t.len() implies lex_lt(t[p], t[q]) by {
        if q < j {
            assert(t[p] == s[p] && t[q] == s[q]);
        } else if p > j {
            assert(t[p] == s[p - 1] && t[q] == s[q - 1]);
        } else if p < j && q == j {
            assert(t[p] == s[p] && t[q] == x);
        } else if p < j && q > j {
            assert(t[p] == s[p] && t[q] == s[q - 1]);
        } else if p == j {
            assert(t[p] == x && t[q] == s[q - 1]);
        }
    }
}

/// The first position in `out` whose name does not come before `x`.
fn name_position(out: &Vec<String>, x: &String) -> (j: usize)
    ensures
        0 <= j <= out@.len(),
        forall|k: int| 0 <= k < j ==> lex_lt(out@[k]@, x@),
        j < out@.len() ==> !lex_lt(out@[j as int]@, x@),
{
    let n = out.len();
    let mut j: usize = 0;
    while j < n
        invariant
            n == out@.len(),
            0 <= j <= n,
            forall|k: int| 0 <= k < j ==> lex_lt(out@[k]@, x@),
        decreases n - j,
    {
        if !str_lt(out[j].as_str(), x.as_str()) {
            return j;
        }
        j += 1;
    }
    j
}

/// In a store with pairwise-distinct names, a name is borne by exactly
/// one record when present and none when absent.
pub proof fn lemma_count_unique(s: Seq<Snippet>, name: Seq<char>)
    requires
        forall|i: int, j: int| 0 <= i < j < s.len() ==> s[i].name@ != s[j].name@,
    ensures
        count_name(s, name) == if has_record(s, name) {
            1nat
        } else {
            0nat
        },
    decreases s.len(),
{
    if s.len() > 0 {
        let head = s.drop_last();
        assert(forall|i: int, j: int| 0 <= i < j < head.len() ==> head[i].name@ != head[j].name@);
        lemma_count_unique(head, name);
        if s.last().name@ == name {
            assert(has_record(s, name));
            if has_record(head, name) {
                let k = record_index(head, name);
                assert(head[k] == s[k]);
                assert(s[k].name@ == s[s.len() - 1].name@);
                assert(false);
            }
        } else {
            if has_record(s, name) {
                let k = record_index(s, name);
                assert(0 <= k < s.len() && s[k].name@ == name);
                assert(k < s.len() - 1);
                assert(head[k] == s[k]);
                assert(has_record(head, name));
            }
            if has_record(head, name) {
                let k = record_index(head, name);
                assert(s[k] == head[k]);
                assert(has_record(s, name));
            }
        }
    }
}

/// Upsert is an idempotent overwrite: saving a name and then saving
/// it again leaves exactly one record with that name, and it holds the
/// second content and the second save's time, under the original id.
pub proof fn lemma_upsert_overwrite(
    d0: Database,
    d1: Database,
    d2: Database,
    name: Seq<char>,
    c1: Seq<char>,
    t1: u64,
    c2: Seq<char>,
    t2: u64,
)
    requires
        d0.wf(),
        d1.wf(),
        d2.wf(),
        saved(d0, d1, name, c1, t1),
        saved(d1, d2, name, c2, t2),
    ensures
        count_name(d2@, name) == 1,
        has_record(d2@, name),
        d2@[record_index(d2@, name)].content_encrypted@ == c2,
        d2@[record_index(d2@, name)].updated_at == t2,
        d2@[record_index(d2@, name)].id == d1@[record_index(d1@, name)].id,
        d2@[record_index(d2@, name)].created_at == d1@[record_index(d1@, name)].created_at,
{
    // after the first save, the name is present
    if has_record(d0@, name) {
        let i = record_index(d0@, name);
        assert(d1@[i].name@ == name);
        assert(has_record(d1@, name));
    } else {
        assert(d1@[d0@.len() as int].name@ == name);
        assert(has_record(d1@, name));
    }
    // so the second save takes the overwrite branch
    let j = record_index(d1@, name);
    assert(0 <= j < d1@.len() && d1@[j].name@ == name);
    assert(replaces(d1@[j], d2@[j], c2, t2));
    assert(d2@[j].name@ == name);
    assert(has_record(d2@, name));
    let k = record_index(d2@, name);
    assert(0 <= k < d2@.len() && d2@[k].name@ == name);
    assert(k == j);
    lemma_count_unique(d2@, name);
}

} // verus!
