//! Library synchronization engine.
//!
//! Reconciles a caller-owned snapshot of library records against a remote
//! datastore using last-modified timestamps: ids the remote holds strictly
//! newer (or not held locally) are pulled, records held strictly newer
//! locally (or missing remotely) are pushed, and equal timestamps are
//! considered converged. The engine borrows the snapshot for one pass and
//! never merges results into it; merging is the caller's responsibility.

use crate::codec::str_eq;
use vstd::prelude::*;

verus! {

/// One user library record. The payload travels opaquely; only the id and
/// the modification time take part in reconciliation.
pub struct LibItem {
    pub id: String,
    /// Last-modified instant, in milliseconds since the Unix epoch.
    pub mtime: i64,
    /// Opaque record state, carried unchanged.
    pub payload: String,
}

impl Clone for LibItem {
    fn clone(&self) -> (r: Self)
        ensures
            r == *self,
    {
        LibItem { id: self.id.clone(), mtime: self.mtime, payload: self.payload.clone() }
    }
}

/// No two records of the sequence share an id.
pub open spec fn lib_ids_unique(s: Seq<LibItem>) -> bool {
    forall|i: int, j: int| 0 <= i < j < s.len() ==> s[i].id@ != s[j].id@
}

/// No two remote entries share an id.
pub open spec fn mt_ids_unique(r: Seq<(String, i64)>) -> bool {
    forall|i: int, j: int| 0 <= i < j < r.len() ==> r[i].0@ != r[j].0@
}

/// Whether some record of the sequence has the given id.
pub open spec fn lib_has(s: Seq<LibItem>, id: Seq<char>) -> bool {
    exists|k: int| 0 <= k < s.len() && s[k].id@ == id
}

/// The record with the given id, if any.
pub open spec fn lib_get(s: Seq<LibItem>, id: Seq<char>) -> Option<LibItem> {
    if lib_has(s, id) {
        Some(s[choose|k: int| 0 <= k < s.len() && s[k].id@ == id])
    } else {
        None
    }
}

/// Whether some remote entry has the given id.
pub open spec fn mt_has(r: Seq<(String, i64)>, id: Seq<char>) -> bool {
    exists|k: int| 0 <= k < r.len() && r[k].0@ == id
}

/// The remote modification time recorded for the given id, if any.
pub open spec fn mt_get(r: Seq<(String, i64)>, id: Seq<char>) -> Option<i64> {
    if mt_has(r, id) {
        Some(r[choose|k: int| 0 <= k < r.len() && r[k].0@ == id].1)
    } else {
        None
    }
}

/// A remote id is pulled when the local snapshot misses it or holds it
/// strictly older.
pub open spec fn should_pull(lib: Seq<LibItem>, id: Seq<char>, rm: i64) -> bool {
    match lib_get(lib, id) {
        None => true,
        Some(it) => it.mtime < rm,
    }
}

/// A local record is pushed when the remote misses its id or records it
/// strictly older.
pub open spec fn should_push(remote: Seq<(String, i64)>, it: LibItem) -> bool {
    match mt_get(remote, it.id@) {
        None => true,
        Some(m) => m < it.mtime,
    }
}

/// The remote ids to pull, in remote order.
pub open spec fn pull_ids(lib: Seq<LibItem>, remote: Seq<(String, i64)>) -> Seq<Seq<char>>
    decreases remote.len(),
{
    if remote.len() == 0 {
        Seq::empty()
    } else {
        (if should_pull(lib, remote[0].0@, remote[0].1) {
            seq![remote[0].0@]
        } else {
            Seq::empty()
        }) + pull_ids(lib, remote.skip(1))
    }
}

/// The local records to push, in snapshot order.
pub open spec fn push_items(lib: Seq<LibItem>, remote: Seq<(String, i64)>) -> Seq<LibItem>
    decreases lib.len(),
{
    if lib.len() == 0 {
        Seq::empty()
    } else {
        (if should_push(remote, lib[0]) {
            seq![lib[0]]
        } else {
            Seq::empty()
        }) + push_items(lib.skip(1), remote)
    }
}

/// In a sequence of unique ids, the record at any index is the one its id
/// looks up to.
pub proof fn lemma_lib_get_at(s: Seq<LibItem>, j: int)
    requires
        lib_ids_unique(s),
        0 <= j < s.len(),
    ensures
        lib_get(s, s[j].id@) == Some(s[j]),
{
    assert(lib_has(s, s[j].id@));
    let k = choose|k: int| 0 <= k < s.len() && s[k].id@ == s[j].id@;
    if k != j {
        assert(s[k].id@ != s[j].id@);
    }
}

/// In a remote vector of unique ids, the entry at any index is the one its
/// id looks up to.
pub proof fn lemma_mt_get_at(r: Seq<(String, i64)>, j: int)
    requires
        mt_ids_unique(r),
        0 <= j < r.len(),
    ensures
        mt_get(r, r[j].0@) == Some(r[j].1),
{
    assert(mt_has(r, r[j].0@));
    let k = choose|k: int| 0 <= k < r.len() && r[k].0@ == r[j].0@;
    if k != j {
        assert(r[k].0@ != r[j].0@);
    }
}

/// Index of the record with the given id, if any.
fn lib_find(lib: &Vec<LibItem>, id: &str) -> (r: Option<usize>)
    ensures
        match r {
            Some(j) => j < lib@.len() && lib@[j as int].id@ == id@,
            None => !lib_has(lib@, id@),
        },
{
    let n = lib.len();
    for j in 0..n
        invariant
            n == lib@.len(),
            forall|k: int| 0 <= k < j ==> lib@[k].id@ != id@,
    {
        if str_eq(lib[j].id.as_str(), id) {
            return Some(j);
        }
    }
    None
}

/// Index of the remote entry with the given id, if any.
fn mt_find(remote: &Vec<(String, i64)>, id: &str) -> (r: Option<usize>)
    ensures
        match r {
            Some(j) => j < remote@.len() && remote@[j as int].0@ == id@,
            None => !mt_has(remote@, id@),
        },
{
    let n = remote.len();
    for j in 0..n
        invariant
            n == remote@.len(),
            forall|k: int| 0 <= k < j ==> remote@[k].0@ != id@,
    {
        if str_eq(remote[j].0.as_str(), id) {
            return Some(j);
        }
    }
    None
}

/// Removing an index from a unique sequence keeps it unique, drops exactly
/// that id, and leaves every other lookup unchanged.
pub proof fn lemma_unique_remove(s: Seq<LibItem>, j: int)
    requires
        lib_ids_unique(s),
        0 <= j < s.len(),
    ensures
        lib_ids_unique(s.remove(j)),
        !lib_has(s.remove(j), s[j].id@),
        forall|id: Seq<char>| id != s[j].id@ ==> lib_get(s.remove(j), id) == lib_get(s, id),
{
    let t = s.remove(j);
    assert forall|id: Seq<char>| id != s[j].id@ implies lib_get(t, id) == lib_get(s, id) by {
        if lib_has(t, id) {
            let k = choose|k: int| 0 <= k < t.len() && t[k].id@ == id;
            let k0 = if k < j {
                k
            } else {
                k + 1
            };
            assert(s[k0] == t[k]);
            lemma_lib_get_at(s, k0);
            let k2 = choose|k2: int| 0 <= k2 < t.len() && t[k2].id@ == id;
            let k20 = if k2 < j {
                k2
            } else {
                k2 + 1
            };
            assert(s[k20] == t[k2]);
            if k20 != k0 {
                assert(s[k20].id@ != s[k0].id@);
            }
        } else {
            if lib_has(s, id) {
                let k = choose|k: int| 0 <= k < s.len() && s[k].id@ == id;
                let kt = if k < j {
                    k
                } else {
                    k - 1
                };
                assert(t[kt] == s[k]);
                assert(lib_has(t, id));
            }
        }
    }
}

/// Appending a record with a fresh id keeps the sequence unique, makes that
/// id look up to the new record, and leaves every other lookup unchanged.
pub proof fn lemma_push_new(s: Seq<LibItem>, it: LibItem)
    requires
        lib_ids_unique(s),
        !lib_has(s, it.id@),
    ensures
        lib_ids_unique(s.push(it)),
        lib_get(s.push(it), it.id@) == Some(it),
        forall|id: Seq<char>| id != it.id@ ==> lib_get(s.push(it), id) == lib_get(s, id),
{
    let t = s.push(it);
    assert(forall|k: int| 0 <= k < s.len() ==> t[k] == s[k]);
    assert(t[s.len() as int] == it);
    lemma_lib_get_at(t, s.len() as int);
    assert forall|id: Seq<char>| id != it.id@ implies lib_get(t, id) == lib_get(s, id) by {
        if lib_has(t, id) {
            let k = choose|k: int| 0 <= k < t.len() && t[k].id@ == id;
            assert(k < s.len());
            lemma_lib_get_at(s, k);
            lemma_lib_get_at(t, k);
        } else {
            assert(!lib_has(s, id));
        }
    }
}

/// Splitting off the head of a unique record sequence: the head's id looks
/// up to the head, and every other lookup passes to the tail.
proof fn lemma_lib_uncons(s: Seq<LibItem>)
    requires
        s.len() > 0,
        lib_ids_unique(s),
    ensures
        lib_ids_unique(s.skip(1)),
        !lib_has(s.skip(1), s[0].id@),
        lib_get(s, s[0].id@) == Some(s[0]),
        forall|id: Seq<char>| id != s[0].id@ ==> lib_get(s, id) == lib_get(s.skip(1), id),
{
    lemma_lib_get_at(s, 0);
    assert(s.remove(0) =~= s.skip(1));
    lemma_unique_remove(s, 0);
}

/// Splitting off the head of a unique remote vector: the head's id looks up
/// to the head's time, and every other lookup passes to the tail.
proof fn lemma_mt_uncons(r: Seq<(String, i64)>)
    requires
        r.len() > 0,
        mt_ids_unique(r),
    ensures
        mt_ids_unique(r.skip(1)),
        !mt_has(r.skip(1), r[0].0@),
        mt_get(r, r[0].0@) == Some(r[0].1),
        forall|id: Seq<char>|
            id != r[0].0@ ==> mt_get(r, id) == mt_get(r.skip(1), id) && mt_has(r, id) == mt_has(
                r.skip(1),
                id,
            ),
{
    lemma_mt_get_at(r, 0);
    let t = r.skip(1);
    assert(forall|k: int| 0 <= k < t.len() ==> t[k] == r[k + 1]);
    assert(mt_ids_unique(t));
    if mt_has(t, r[0].0@) {
        let k = choose|k: int| 0 <= k < t.len() && t[k].0@ == r[0].0@;
        assert(r[0].0@ != r[k + 1].0@);
    }
    assert forall|id: Seq<char>| id != r[0].0@ implies mt_get(r, id) == mt_get(t, id) && mt_has(
        r,
        id,
    ) == mt_has(t, id) by {
        if mt_has(t, id) {
            let k = choose|k: int| 0 <= k < t.len() && t[k].0@ == id;
            assert(r[k + 1] == t[k]);
            assert(mt_has(r, id));
            lemma_mt_get_at(r, k + 1);
            lemma_mt_get_at(t, k);
        } else {
            if mt_has(r, id) {
                let k = choose|k: int| 0 <= k < r.len() && r[k].0@ == id;
                assert(k != 0);
                assert(t[k - 1] == r[k]);
                assert(mt_has(t, id));
            }
        }
    }
}

/// What the pull set holds: an id exactly for each remote entry the
/// snapshot misses or holds strictly older, each id once, and only ids the
/// remote tracks.
pub proof fn lemma_pull_ids_elems(lib: Seq<LibItem>, remote: Seq<(String, i64)>)
    requires
        mt_ids_unique(remote),
    ensures
        forall|k1: int, k2: int|
            0 <= k1 < k2 < pull_ids(lib, remote).len() ==> pull_ids(lib, remote)[k1] != pull_ids(
                lib,
                remote,
            )[k2],
        forall|id: Seq<char>| #[trigger] pull_ids(lib, remote).contains(id) ==> mt_has(remote, id),
        forall|m: int|
            #![trigger remote[m]]
            0 <= m < remote.len() ==> (pull_ids(lib, remote).contains(remote[m].0@) <==> should_pull(
                lib,
                remote[m].0@,
                remote[m].1,
            )),
    decreases remote.len(),
{
    let pull = pull_ids(lib, remote);
    if remote.len() == 0 {
        assert(forall|id: Seq<char>| !pull.contains(id));
    } else {
        let tail = remote.skip(1);
        let head_id = remote[0].0@;
        lemma_mt_uncons(remote);
        lemma_pull_ids_elems(lib, tail);
        let pt = pull_ids(lib, tail);
        assert(forall|k: int| 0 <= k < tail.len() ==> tail[k] == remote[k + 1]);
        if should_pull(lib, head_id, remote[0].1) {
            assert(pull =~= seq![head_id] + pt);
            assert(pull[0] == head_id);
            assert(pull.contains(head_id));
            assert forall|id: Seq<char>| #[trigger] pull.contains(id) implies (id == head_id
                || pt.contains(id)) by {
                let k = choose|k: int| 0 <= k < pull.len() && pull[k] == id;
                if k > 0 {
                    assert(pt[k - 1] == id);
                    assert(pt.contains(id));
                }
            }
            assert forall|id: Seq<char>| #[trigger] pt.contains(id) implies pull.contains(id) by {
                let k = choose|k: int| 0 <= k < pt.len() && pt[k] == id;
                assert(pull[k + 1] == id);
            }
            assert forall|k1: int, k2: int| 0 <= k1 < k2 < pull.len() implies pull[k1]
                != pull[k2] by {
                if k1 == 0 {
                    assert(pull[k2] == pt[k2 - 1]);
                    if pull[k2] == head_id {
                        assert(pt.contains(head_id));
                        assert(mt_has(tail, head_id));
                    }
                } else {
                    assert(pull[k1] == pt[k1 - 1] && pull[k2] == pt[k2 - 1]);
                }
            }
        } else {
            assert(pull =~= pt);
            if pull.contains(head_id) {
                assert(mt_has(tail, head_id));
            }
        }
        assert forall|m: int| 0 <= m < remote.len() implies (pull.contains(#[trigger] remote[m].0@)
            <==> should_pull(lib, remote[m].0@, remote[m].1)) by {
            if m > 0 {
                assert(tail[m - 1] == remote[m]);
                assert(remote[m].0@ != head_id);
                assert(pt.contains(remote[m].0@) <==> should_pull(lib, remote[m].0@, remote[m].1));
                if pull.contains(remote[m].0@) {
                    let k = choose|k: int| 0 <= k < pull.len() && pull[k] == remote[m].0@;
                    if should_pull(lib, head_id, remote[0].1) {
                        assert(k > 0);
                        assert(pt[k - 1] == remote[m].0@);
                        assert(pt.contains(remote[m].0@));
                    } else {
                        assert(pt[k] == remote[m].0@);
                        assert(pt.contains(remote[m].0@));
                    }
                }
                if pt.contains(remote[m].0@) {
                    let k = choose|k: int| 0 <= k < pt.len() && pt[k] == remote[m].0@;
                    if should_pull(lib, head_id, remote[0].1) {
                        assert(pull[k + 1] == remote[m].0@);
                    } else {
                        assert(pull[k] == remote[m].0@);
                    }
                    assert(pull.contains(remote[m].0@));
                }
            }
        }
    }
}

/// What the push set holds: exactly the snapshot records whose id the
/// remote misses or records strictly older, under the snapshot's own ids.
pub proof fn lemma_push_items_get(lib: Seq<LibItem>, remote: Seq<(String, i64)>)
    requires
        lib_ids_unique(lib),
    ensures
        lib_ids_unique(push_items(lib, remote)),
        forall|id: Seq<char>|
            #![trigger lib_get(push_items(lib, remote), id)]
            lib_get(push_items(lib, remote), id) == (match lib_get(lib, id) {
                Some(it) => if should_push(remote, it) {
                    Some(it)
                } else {
                    None::<LibItem>
                },
                None => None::<LibItem>,
            }),
    decreases lib.len(),
{
    let p = push_items(lib, remote);
    if lib.len() == 0 {
        assert(forall|id: Seq<char>| !lib_has(p, id) && !lib_has(lib, id));
    } else {
        let tail = lib.skip(1);
        let h = lib[0];
        lemma_lib_uncons(lib);
        lemma_push_items_get(tail, remote);
        let pt = push_items(tail, remote);
        if should_push(remote, h) {
            assert(p =~= seq![h] + pt);
            assert(p[0] == h);
            assert(forall|k: int| 0 <= k < pt.len() ==> p[k + 1] == pt[k]);
            assert forall|k1: int, k2: int| 0 <= k1 < k2 < p.len() implies p[k1].id@
                != p[k2].id@ by {
                if k1 == 0 {
                    assert(p[k2] == pt[k2 - 1]);
                    assert(lib_has(pt, pt[k2 - 1].id@));
                    assert(lib_get(pt, p[k2].id@) is Some);
                    if p[k2].id@ == h.id@ {
                        assert(lib_get(tail, h.id@) is None);
                    }
                } else {
                    assert(p[k1] == pt[k1 - 1] && p[k2] == pt[k2 - 1]);
                }
            }
            assert(lib_ids_unique(p));
            lemma_lib_uncons(p);
            assert(p.skip(1) =~= pt);
            assert forall|id: Seq<char>| #[trigger] lib_get(p, id) == (match lib_get(lib, id) {
                Some(it) => if should_push(remote, it) {
                    Some(it)
                } else {
                    None::<LibItem>
                },
                None => None::<LibItem>,
            }) by {
                if id == h.id@ {
                    assert(lib_get(p, id) == Some(h));
                } else {
                    assert(lib_get(p, id) == lib_get(pt, id));
                    assert(lib_get(lib, id) == lib_get(tail, id));
                }
            }
        } else {
            assert(p =~= pt);
            assert forall|id: Seq<char>| #[trigger] lib_get(p, id) == (match lib_get(lib, id) {
                Some(it) => if should_push(remote, it) {
                    Some(it)
                } else {
                    None::<LibItem>
                },
                None => None::<LibItem>,
            }) by {
                if id == h.id@ {
                    assert(lib_get(tail, h.id@) is None);
                    assert(lib_get(p, id) is None);
                } else {
                    assert(lib_get(lib, id) == lib_get(tail, id));
                }
            }
        }
    }
}

/// A pull over entries none of which qualifies is empty.
proof fn lemma_pull_ids_empty(lib: Seq<LibItem>, remote: Seq<(String, i64)>)
    requires
        forall|m: int|
            #![trigger remote[m]]
            0 <= m < remote.len() ==> !should_pull(lib, remote[m].0@, remote[m].1),
    ensures
        pull_ids(lib, remote) =~= Seq::<Seq<char>>::empty(),
    decreases remote.len(),
{
    if remote.len() > 0 {
        assert(forall|k: int| 0 <= k < remote.skip(1).len() ==> remote.skip(1)[k] == remote[k + 1]);
        lemma_pull_ids_empty(lib, remote.skip(1));
    }
}

/// A push over a snapshot none of whose records qualifies is empty.
proof fn lemma_push_items_empty(lib: Seq<LibItem>, remote: Seq<(String, i64)>)
    requires
        forall|j: int| #![trigger lib[j]] 0 <= j < lib.len() ==> !should_push(remote, lib[j]),
    ensures
        push_items(lib, remote) =~= Seq::<LibItem>::empty(),
    decreases lib.len(),
{
    if lib.len() > 0 {
        assert(forall|k: int| 0 <= k < lib.skip(1).len() ==> lib.skip(1)[k] == lib[k + 1]);
        lemma_push_items_empty(lib.skip(1), remote);
    }
}

/// The record among `items` that wrote the given id last, if any.
pub open spec fn last_write(items: Seq<LibItem>, id: Seq<char>) -> Option<LibItem>
    decreases items.len(),
{
    if items.len() == 0 {
        None
    } else if items.last().id@ == id {
        Some(items.last())
    } else {
        last_write(items.drop_last(), id)
    }
}

/// No record among `items` carries the id, so no last write exists.
proof fn lemma_last_write_none(items: Seq<LibItem>, id: Seq<char>)
    requires
        forall|k: int| 0 <= k < items.len() ==> items[k].id@ != id,
    ensures
        last_write(items, id) is None,
    decreases items.len(),
{
    if items.len() > 0 {
        lemma_last_write_none(items.drop_last(), id);
    }
}

/// Among records of pairwise distinct ids, the last write of an id is the
/// record carrying it.
proof fn lemma_last_write_some(items: Seq<LibItem>, k: int)
    requires
        0 <= k < items.len(),
        forall|k1: int, k2: int| 0 <= k1 < k2 < items.len() ==> items[k1].id@ != items[k2].id@,
    ensures
        last_write(items, items[k].id@) == Some(items[k]),
    decreases items.len(),
{
    let id = items[k].id@;
    if items.last().id@ == id {
        if k != items.len() - 1 {
            assert(items[k].id@ != items[items.len() - 1].id@);
        }
    } else {
        assert(k != items.len() - 1);
        assert(items.drop_last()[k] == items[k]);
        lemma_last_write_some(items.drop_last(), k);
    }
}

/// A last write only exists for an id some record carries.
proof fn lemma_last_write_mem(items: Seq<LibItem>, id: Seq<char>)
    requires
        last_write(items, id) is Some,
    ensures
        exists|k: int| 0 <= k < items.len() && #[trigger] items[k].id@ == id,
    decreases items.len(),
{
    if items.len() > 0 {
        if items.last().id@ == id {
            assert(items[items.len() - 1].id@ == id);
        } else {
            lemma_last_write_mem(items.drop_last(), id);
            let k = choose|k: int|
                0 <= k < items.drop_last().len() && #[trigger] items.drop_last()[k].id@ == id;
            assert(items[k].id@ == id);
        }
    }
}

/// Idempotence of a pass: after a pass whose results were applied on both
/// sides — the caller merged the pulled records into its snapshot, and the
/// remote recorded the pushed records' times — and with no other remote
/// mutation, the next pass finds nothing to pull and nothing to push.
pub proof fn lemma_sync_idempotent(
    lib: Seq<LibItem>,
    remote: Seq<(String, i64)>,
    pulled: Seq<LibItem>,
    lib2: Seq<LibItem>,
    remote2: Seq<(String, i64)>,
)
    requires
        lib_ids_unique(lib),
        mt_ids_unique(remote),
        lib_ids_unique(lib2),
        mt_ids_unique(remote2),
        // the remote answered the Get with its record of every pulled id
        pulled.len() == pull_ids(lib, remote).len(),
        forall|k: int|
            #![trigger pulled[k]]
            0 <= k < pulled.len() ==> pulled[k].id@ == pull_ids(lib, remote)[k] && mt_get(
                remote,
                pulled[k].id@,
            ) == Some(pulled[k].mtime),
        // the caller merged the pulled records into its snapshot
        forall|id: Seq<char>|
            #![trigger lib_get(lib2, id)]
            lib_get(lib2, id) == (if last_write(pulled, id) is Some {
                last_write(pulled, id)
            } else {
                lib_get(lib, id)
            }),
        // the remote applied the Put: pushed ids now carry the pushed times
        forall|id: Seq<char>|
            #![trigger mt_get(remote2, id)]
            mt_get(remote2, id) == (match lib_get(push_items(lib, remote), id) {
                Some(it) => Some(it.mtime),
                None => mt_get(remote, id),
            }),
    ensures
        pull_ids(lib2, remote2) =~= Seq::<Seq<char>>::empty(),
        push_items(lib2, remote2) =~= Seq::<LibItem>::empty(),
{
    let pull1 = pull_ids(lib, remote);
    let push1 = push_items(lib, remote);
    lemma_pull_ids_elems(lib, remote);
    lemma_push_items_get(lib, remote);
    assert(forall|k1: int, k2: int|
        0 <= k1 < k2 < pulled.len() ==> pulled[k1].id@ != pulled[k2].id@);
    assert forall|m: int| 0 <= m < remote2.len() implies !should_pull(
        lib2,
        remote2[m].0@,
        remote2[m].1,
    ) by {
        let id = remote2[m].0@;
        let rm = remote2[m].1;
        lemma_mt_get_at(remote2, m);
        match lib_get(push1, id) {
            Some(p) => {
                assert(lib_get(lib, id) == Some(p) && should_push(remote, p));
                assert(rm == p.mtime);
                if pull1.contains(id) {
                    assert(mt_has(remote, id));
                    let m0 = choose|m0: int| 0 <= m0 < remote.len() && remote[m0].0@ == id;
                    lemma_mt_get_at(remote, m0);
                    assert(should_pull(lib, remote[m0].0@, remote[m0].1));
                }
                assert forall|k: int| 0 <= k < pulled.len() implies #[trigger] pulled[k].id@
                    != id by {
                    if pulled[k].id@ == id {
                        assert(pull1[k] == id);
                        assert(pull1.contains(id));
                    }
                }
                lemma_last_write_none(pulled, id);
                assert(lib_get(lib2, id) == Some(p));
            },
            None => {
                assert(mt_get(remote2, id) == mt_get(remote, id));
                assert(mt_has(remote, id));
                let m0 = choose|m0: int| 0 <= m0 < remote.len() && remote[m0].0@ == id;
                lemma_mt_get_at(remote, m0);
                assert(remote[m0].1 == rm);
                if should_pull(lib, id, rm) {
                    assert(pull1.contains(id));
                    let k = choose|k: int| 0 <= k < pull1.len() && pull1[k] == id;
                    assert(pulled[k].id@ == id && mt_get(remote, id) == Some(pulled[k].mtime));
                    assert(pulled[k].mtime == rm);
                    lemma_last_write_some(pulled, k);
                    assert(lib_get(lib2, id) == Some(pulled[k]));
                } else {
                    if pull1.contains(id) {
                        assert(should_pull(lib, remote[m0].0@, remote[m0].1));
                    }
                    assert forall|k: int| 0 <= k < pulled.len() implies #[trigger] pulled[k].id@
                        != id by {
                        if pulled[k].id@ == id {
                            assert(pull1[k] == id);
                            assert(pull1.contains(id));
                        }
                    }
                    lemma_last_write_none(pulled, id);
                    assert(lib_get(lib2, id) == lib_get(lib, id));
                }
            },
        }
    }
    lemma_pull_ids_empty(lib2, remote2);
    assert forall|j: int| 0 <= j < lib2.len() implies !should_push(remote2, #[trigger] lib2[j]) by {
        let it2 = lib2[j];
        let id = it2.id@;
        lemma_lib_get_at(lib2, j);
        assert(lib_get(lib2, id) == Some(it2));
        if last_write(pulled, id) is Some {
            assert(last_write(pulled, id) == Some(it2));
            // the pulled record carrying this id is it2 itself
            assert forall|k: int|
                0 <= k < pulled.len() && #[trigger] pulled[k].id@ == id implies pulled[k]
                == it2 by {
                lemma_last_write_some(pulled, k);
            }
            if !mt_has(remote, id) {
                // a pulled id is a remote id
                assert forall|k: int| 0 <= k < pulled.len() implies #[trigger] pulled[k].id@
                    != id by {
                    if pulled[k].id@ == id {
                        assert(mt_get(remote, id) == Some(pulled[k].mtime));
                    }
                }
                lemma_last_write_none(pulled, id);
            }
            let m0 = choose|m0: int| 0 <= m0 < remote.len() && remote[m0].0@ == id;
            lemma_mt_get_at(remote, m0);
            // it2 came back for a pulled id, so its time is the remote's
            lemma_last_write_mem(pulled, id);
            let k1 = choose|k1: int| 0 <= k1 < pulled.len() && #[trigger] pulled[k1].id@ == id;
            assert(pulled[k1] == it2);
            assert(mt_get(remote, id) == Some(it2.mtime));
            // its id was pulled, hence not pushed
            assert(pull1.contains(id)) by {
                assert(pull1[k1] == id);
            }
            assert(should_pull(lib, remote[m0].0@, remote[m0].1));
            match lib_get(push1, id) {
                Some(p) => {
                    assert(lib_get(lib, id) == Some(p) && should_push(remote, p));
                },
                None => {},
            }
            assert(mt_get(remote2, id) == Some(it2.mtime));
        } else {
            assert(lib_get(lib, id) == Some(it2));
            if should_push(remote, it2) {
                assert(lib_get(push1, id) == Some(it2));
                assert(mt_get(remote2, id) == Some(it2.mtime));
            } else {
                assert(lib_get(push1, id) is None);
                assert(mt_get(remote2, id) == mt_get(remote, id));
                assert(mt_get(remote, id) is Some);
            }
        }
    }
    lemma_push_items_empty(lib2, remote2);
}

/// An authenticated session holding the local library snapshot.
pub struct Auth {
    /// Opaque session key presented to the datastore.
    pub key: String,
    /// Local snapshot of library records, one per id.
    pub lib: Vec<LibItem>,
}

impl Auth {
    /// The snapshot holds at most one record per id.
    pub open spec fn lib_wf(&self) -> bool {
        lib_ids_unique(self.lib@)
    }

    /// Inserts one record, replacing a previous record of the same id.
    fn lib_upsert(&mut self, item: &LibItem)
        requires
            old(self).lib_wf(),
        ensures
            final(self).lib_wf(),
            final(self).key == old(self).key,
            lib_get(final(self).lib@, item.id@) == Some(*item),
            forall|id: Seq<char>|
                id != item.id@ ==> lib_get(final(self).lib@, id) == lib_get(old(self).lib@, id),
    {
        let found = lib_find(&self.lib, item.id.as_str());
        match found {
            Some(j) => {
                proof {
                    lemma_lib_get_at(self.lib@, j as int);
                    lemma_unique_remove(self.lib@, j as int);
                }
                self.lib.remove(j);
            },
            None => {},
        }
        proof {
            lemma_push_new(self.lib@, *item);
        }
        self.lib.push(item.clone());
    }

    /// Merges the given records into the snapshot; for each id the last
    /// record in `items` wins, and ids not mentioned keep their record.
    pub fn lib_update(&mut self, items: &[LibItem])
        requires
            old(self).lib_wf(),
        ensures
            final(self).lib_wf(),
            final(self).key == old(self).key,
            forall|id: Seq<char>|
                lib_get(final(self).lib@, id) == (if last_write(items@, id) is Some {
                    last_write(items@, id)
                } else {
                    lib_get(old(self).lib@, id)
                }),
    {
        let n = items.len();
        proof {
            assert(items@.take(0) =~= Seq::<LibItem>::empty());
        }
        for i in 0..n
            invariant
                n == items@.len(),
                self.lib_wf(),
                self.key == old(self).key,
                forall|id: Seq<char>|
                    lib_get(self.lib@, id) == (if last_write(items@.take(i as int), id) is Some {
                        last_write(items@.take(i as int), id)
                    } else {
                        lib_get(old(self).lib@, id)
                    }),
        {
            self.lib_upsert(&items[i]);
            proof {
                assert(items@.take(i + 1).drop_last() =~= items@.take(i as int));
                assert(items@.take(i + 1).last() == items@[i as int]);
            }
        }
        proof {
            assert(items@.take(n as int) =~= items@);
        }
    }

    /// Computes the minimal pull/push delta between the local snapshot and
    /// the remote modification-time vector.
    pub fn lib_plan(&self, remote: &Vec<(String, i64)>) -> (p: SyncPlan)
        requires
            self.lib_wf(),
            mt_ids_unique(remote@),
        ensures
            p.to_pull_ids@.map_values(|s: String| s@) == pull_ids(self.lib@, remote@),
            p.to_push@ == push_items(self.lib@, remote@),
            // ids to fetch are drawn only from keys the remote tracks
            forall|k: int|
                0 <= k < p.to_pull_ids@.len() ==> mt_has(remote@, #[trigger] p.to_pull_ids@[k]@),
    {
        let mut to_pull_ids: Vec<String> = Vec::new();
        let n = remote.len();
        proof {
            assert(remote@.skip(0) =~= remote@);
            assert(to_pull_ids@.map_values(|s: String| s@) =~= Seq::<Seq<char>>::empty());
        }
        for i in 0..n
            invariant
                n == remote@.len(),
                self.lib_wf(),
                mt_ids_unique(remote@),
                to_pull_ids@.map_values(|s: String| s@) + pull_ids(self.lib@, remote@.skip(i as int))
                    == pull_ids(self.lib@, remote@),
        {
            let ghost pre = to_pull_ids@;
            proof {
                assert(remote@.skip(i as int).skip(1) =~= remote@.skip(i + 1));
            }
            let pull = match lib_find(&self.lib, remote[i].0.as_str()) {
                None => true,
                Some(j) => {
                    proof {
                        lemma_lib_get_at(self.lib@, j as int);
                    }
                    self.lib[j].mtime < remote[i].1
                },
            };
            proof {
                assert(pull == should_pull(self.lib@, remote@[i as int].0@, remote@[i as int].1));
            }
            if pull {
                to_pull_ids.push(remote[i].0.clone());
            }
            proof {
                assert(to_pull_ids@.map_values(|s: String| s@) =~= pre.map_values(|s: String| s@)
                    + (if should_pull(self.lib@, remote@[i as int].0@, remote@[i as int].1) {
                    seq![remote@[i as int].0@]
                } else {
                    Seq::<Seq<char>>::empty()
                }));
                assert(to_pull_ids@.map_values(|s: String| s@) + pull_ids(
                    self.lib@,
                    remote@.skip(i + 1),
                ) =~= pull_ids(self.lib@, remote@));
            }
        }
        proof {
            assert(pull_ids(self.lib@, remote@.skip(n as int)) =~= Seq::<Seq<char>>::empty());
            assert(to_pull_ids@.map_values(|s: String| s@) + Seq::<Seq<char>>::empty()
                =~= to_pull_ids@.map_values(|s: String| s@));
        }
        let mut to_push: Vec<LibItem> = Vec::new();
        let m = self.lib.len();
        proof {
            assert(self.lib@.skip(0) =~= self.lib@);
        }
        for i in 0..m
            invariant
                m == self.lib@.len(),
                self.lib_wf(),
                mt_ids_unique(remote@),
                to_push@ + push_items(self.lib@.skip(i as int), remote@) == push_items(
                    self.lib@,
                    remote@,
                ),
        {
            let ghost pre = to_push@;
            proof {
                assert(self.lib@.skip(i as int).skip(1) =~= self.lib@.skip(i + 1));
            }
            let push = match mt_find(remote, self.lib[i].id.as_str()) {
                None => true,
                Some(j) => {
                    proof {
                        lemma_mt_get_at(remote@, j as int);
                    }
                    remote[j].1 < self.lib[i].mtime
                },
            };
            proof {
                assert(push == should_push(remote@, self.lib@[i as int]));
            }
            if push {
                to_push.push(self.lib[i].clone());
            }
            proof {
                assert(to_push@ =~= pre + (if should_push(remote@, self.lib@[i as int]) {
                    seq![self.lib@[i as int]]
                } else {
                    Seq::<LibItem>::empty()
                }));
                assert(to_push@ + push_items(self.lib@.skip(i + 1), remote@) =~= push_items(
                    self.lib@,
                    remote@,
                ));
            }
        }
        proof {
            assert(push_items(self.lib@.skip(m as int), remote@) =~= Seq::<LibItem>::empty());
            assert(to_push@ + Seq::<LibItem>::empty() =~= to_push@);
            lemma_pull_ids_elems(self.lib@, remote@);
            assert forall|k: int| 0 <= k < to_pull_ids@.len() implies mt_has(
                remote@,
                #[trigger] to_pull_ids@[k]@,
            ) by {
                let ids = pull_ids(self.lib@, remote@);
                assert(to_pull_ids@.map_values(|s: String| s@)[k] == to_pull_ids@[k]@);
                assert(ids[k] == to_pull_ids@[k]@);
                assert(ids.contains(ids[k]));
            }
        }
        SyncPlan { to_pull_ids, to_push }
    }
}

/// The pull/push delta one sync pass executes: ids to fetch from the
/// remote, and records to send to it.
pub struct SyncPlan {
    pub to_pull_ids: Vec<String>,
    pub to_push: Vec<LibItem>,
}

/// Failure of a sync pass or of a single-item operation.
#[derive(PartialEq, Eq, Structural, Clone, Copy, Debug)]
pub enum SyncError {
    NetworkFailure,
    DecodeFailure,
    DatastoreFailure,
    NotImplemented,
}

/// A command sent to the remote collection store.
pub enum DatastoreCmd {
    Meta,
    Get { ids: Vec<String>, all: bool },
    Put { changes: Vec<LibItem> },
}

/// A typed response of the remote collection store.
pub enum DatastoreResponse {
    /// Per-id modification times, answering `Meta`.
    MTimes { mtimes: Vec<(String, i64)> },
    /// Full records, answering `Get`.
    Items { items: Vec<LibItem> },
    /// Acknowledgment, answering `Put`.
    Success,
}

/// The datastore capability the engine is built over. An implementation
/// performs one authenticated command against the fixed collection; the
/// paired form may perform its two commands concurrently, in no promised
/// order. Implementations live outside the library.
pub trait DatastoreClient {
    /// Performs one command.
    fn fetch(&mut self, key: &str, collection: &str, cmd: DatastoreCmd) -> Result<
        DatastoreResponse,
        SyncError,
    >;

    /// Performs two commands with no ordering dependency between them, and
    /// returns both outcomes.
    fn fetch_pair(&mut self, key: &str, collection: &str, first: DatastoreCmd, second: DatastoreCmd)
        -> (Result<DatastoreResponse, SyncError>, Result<DatastoreResponse, SyncError>);
}

/// Whether `e` is literally one of the entries of `r`.
pub open spec fn mt_entry_of(r: Seq<(String, i64)>, e: (String, i64)) -> bool {
    exists|m: int| 0 <= m < r.len() && e == #[trigger] r[m]
}

/// Whether a later entry carries the same id.
pub open spec fn has_after(r: Seq<(String, i64)>, m: int, id: Seq<char>) -> bool {
    exists|j: int| m < j < r.len() && r[j].0@ == id
}

/// Every id of the input is retained once cover-or-defer holds of all
/// positions.
proof fn lemma_dedup_covers(remote: Seq<(String, i64)>, out: Seq<(String, i64)>, m: int)
    requires
        0 <= m < remote.len(),
        forall|m2: int|
            0 <= m2 < remote.len() ==> mt_has(out, remote[m2].0@) || has_after(
                remote,
                m2,
                remote[m2].0@,
            ),
    ensures
        mt_has(out, remote[m].0@),
    decreases remote.len() - m,
{
    if !mt_has(out, remote[m].0@) {
        let j = choose|j: int| m < j < remote.len() && remote[j].0@ == remote[m].0@;
        lemma_dedup_covers(remote, out, j);
    }
}

/// Collapses a raw modification-time list to one entry per id; for a
/// repeated id the last entry wins, as a mapping built by insertion would
/// have it.
fn dedup_mtimes(remote: Vec<(String, i64)>) -> (out: Vec<(String, i64)>)
    ensures
        mt_ids_unique(out@),
        forall|k: int| 0 <= k < out@.len() ==> mt_entry_of(remote@, #[trigger] out@[k]),
        forall|m: int| 0 <= m < remote@.len() ==> mt_has(out@, remote@[m].0@),
{
    let n = remote.len();
    let mut out: Vec<(String, i64)> = Vec::new();
    let ghost mut src: Seq<int> = Seq::empty();
    for i in 0..n
        invariant
            n == remote@.len(),
            src.len() == out@.len(),
            forall|k: int|
                #![trigger src[k]]
                0 <= k < src.len() ==> 0 <= src[k] < i && out@[k] == remote@[src[k]]
                    && !has_after(remote@, src[k], remote@[src[k]].0@),
            forall|m: int|
                0 <= m < i ==> mt_has(out@, remote@[m].0@) || has_after(remote@, m, remote@[m].0@),
            mt_ids_unique(out@),
    {
        let mut later = false;
        let mut j = i + 1;
        while j < n
            invariant
                n == remote@.len(),
                i < j <= n,
                i < n,
                later ==> has_after(remote@, i as int, remote@[i as int].0@),
                !later ==> forall|t: int| i < t < j ==> remote@[t].0@ != remote@[i as int].0@,
            decreases n - j,
        {
            if str_eq(remote[j].0.as_str(), remote[i].0.as_str()) {
                later = true;
            }
            j += 1;
        }
        if !later {
            proof {
                assert(!has_after(remote@, i as int, remote@[i as int].0@));
                if mt_has(out@, remote@[i as int].0@) {
                    let k = choose|k: int|
                        0 <= k < out@.len() && out@[k].0@ == remote@[i as int].0@;
                    let m = src[k];
                    assert(m < i < remote@.len() && remote@[i as int].0@ == remote@[m].0@);
                    assert(has_after(remote@, m, remote@[m].0@));
                }
            }
            let ghost pre = out@;
            out.push((remote[i].0.clone(), remote[i].1));
            proof {
                src = src.push(i as int);
                assert(out@[pre.len() as int] == remote@[i as int]);
                assert(mt_has(out@, remote@[i as int].0@));
                assert(forall|k: int| 0 <= k < pre.len() ==> out@[k] == pre[k]);
                assert forall|m: int|
                    0 <= m < i && mt_has(pre, remote@[m].0@) implies mt_has(
                    out@,
                    remote@[m].0@,
                ) by {
                    let k = choose|k: int| 0 <= k < pre.len() && pre[k].0@ == remote@[m].0@;
                    assert(out@[k] == pre[k]);
                }
            }
        }
    }
    proof {
        assert forall|k: int| 0 <= k < out@.len() implies mt_entry_of(
            remote@,
            #[trigger] out@[k],
        ) by {
            let m = src[k];
            assert(0 <= m < remote@.len() && out@[k] == remote@[m]);
        }
        assert forall|m: int| 0 <= m < remote@.len() implies mt_has(out@, remote@[m].0@) by {
            lemma_dedup_covers(remote@, out@, m);
        }
    }
    out
}

/// Joins the outcomes of the concurrent `Get` and `Put`: the pass succeeds
/// with the pulled records only when both succeed, and surfaces the first
/// failure otherwise. A `Get` answered by anything but records, or a `Put`
/// answered by anything but an acknowledgment, is a decode failure.
pub fn lib_sync_join(
    get_res: Result<DatastoreResponse, SyncError>,
    put_res: Result<DatastoreResponse, SyncError>,
) -> (r: Result<Vec<LibItem>, SyncError>)
    ensures
        match r {
            Ok(items) => get_res is Ok && get_res->Ok_0 is Items && items
                == get_res->Ok_0->Items_items && put_res is Ok && put_res->Ok_0 is Success,
            Err(e) => {
                ||| get_res is Err && e == get_res->Err_0
                ||| get_res is Ok && !(get_res->Ok_0 is Items) && e == SyncError::DecodeFailure
                ||| get_res is Ok && get_res->Ok_0 is Items && put_res is Err && e == put_res->Err_0
                ||| get_res is Ok && get_res->Ok_0 is Items && put_res is Ok && !(put_res->Ok_0
                    is Success) && e == SyncError::DecodeFailure
            },
        },
{
    let items = match get_res {
        Ok(DatastoreResponse::Items { items }) => items,
        Ok(_) => {
            return Err(SyncError::DecodeFailure);
        },
        Err(e) => {
            return Err(e);
        },
    };
    match put_res {
        Ok(DatastoreResponse::Success) => Ok(items),
        Ok(_) => Err(SyncError::DecodeFailure),
        Err(e) => Err(e),
    }
}

/// The fixed remote collection that library records live in.
pub const COLL_NAME: &'static str = "libraryItem";

impl Auth {
    /// One synchronization pass. Fetches the remote modification times,
    /// computes the pull/push delta against the local snapshot, performs the
    /// `Get` and `Put` commands the delta calls for (concurrently when both
    /// are needed, and not at all when the delta is empty), and returns the
    /// pulled records. Either command failing fails the pass; nothing is
    /// rolled back and nothing is merged into the snapshot.
    pub fn lib_sync<D: DatastoreClient>(&self, client: &mut D) -> (r: Result<
        Vec<LibItem>,
        SyncError,
    >)
        requires
            self.lib_wf(),
    {
        let meta_res = client.fetch(self.key.as_str(), COLL_NAME, DatastoreCmd::Meta);
        let raw = match meta_res {
            Ok(DatastoreResponse::MTimes { mtimes }) => mtimes,
            Ok(_) => {
                return Err(SyncError::DecodeFailure);
            },
            Err(e) => {
                return Err(e);
            },
        };
        let remote = dedup_mtimes(raw);
        let plan = self.lib_plan(&remote);
        let SyncPlan { to_pull_ids, to_push } = plan;
        let need_get = to_pull_ids.len() > 0;
        let need_put = to_push.len() > 0;
        if !need_get && !need_put {
            return Ok(Vec::new());
        }
        if need_get && !need_put {
            return match client.fetch(
                self.key.as_str(),
                COLL_NAME,
                DatastoreCmd::Get { ids: to_pull_ids, all: false },
            ) {
                Ok(DatastoreResponse::Items { items }) => Ok(items),
                Ok(_) => Err(SyncError::DecodeFailure),
                Err(e) => Err(e),
            };
        }
        if !need_get && need_put {
            return match client.fetch(
                self.key.as_str(),
                COLL_NAME,
                DatastoreCmd::Put { changes: to_push },
            ) {
                Ok(DatastoreResponse::Success) => Ok(Vec::new()),
                Ok(_) => Err(SyncError::DecodeFailure),
                Err(e) => Err(e),
            };
        }
        let (get_res, put_res) = client.fetch_pair(
            self.key.as_str(),
            COLL_NAME,
            DatastoreCmd::Get { ids: to_pull_ids, all: false },
            DatastoreCmd::Put { changes: to_push },
        );
        lib_sync_join(get_res, put_res)
    }

    /// Upserting a single record remotely is not offered by this build; the
    /// call fails explicitly rather than silently doing nothing.
    pub fn lib_push(&self, item: &LibItem) -> (r: Result<(), SyncError>)
        ensures
            r == Err::<(), SyncError>(SyncError::NotImplemented),
    {
        let _ = item;
        Err(SyncError::NotImplemented)
    }

    /// Fetching a single record remotely is not offered by this build; the
    /// call fails explicitly rather than silently doing nothing.
    pub fn lib_pull(&self, id: &str) -> (r: Result<Option<LibItem>, SyncError>)
        ensures
            r == Err::<Option<LibItem>, SyncError>(SyncError::NotImplemented),
    {
        let _ = id;
        Err(SyncError::NotImplemented)
    }
}

} // verus!

