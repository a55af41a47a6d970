//! The non-expired option roster: a flat sequence of fixed-width records
//! (seven scalar fields each) as the chain reports it. A refresh merges the
//! freshly fetched roster into the cached one by exact-record deduplication
//! and then drops every record whose expiry has passed; a fetch whose length
//! is not a non-zero multiple of the record width is rejected wholesale and
//! the cached roster kept unchanged.

use crate::digits::{dec_value, is_dec_string};
use crate::types::{clone_strings, str_views};
use vstd::prelude::*;

verus! {

/// Scalar fields per roster record.
pub const ROSTER_RECORD_WIDTH: usize = 7;

/// A position in a flat roster where a record starts.
pub open spec fn valid_base(s: Seq<Seq<char>>, base: int) -> bool {
    0 <= base && base + 7 <= s.len() && base % 7 == 0
}

/// The record starting at a position.
pub open spec fn rec_at(s: Seq<Seq<char>>, base: int) -> Seq<Seq<char>> {
    s.subrange(base, base + 7)
}

/// Whether the roster holds a record field-wise identical to `r`.
pub open spec fn has_record(s: Seq<Seq<char>>, r: Seq<Seq<char>>) -> bool {
    exists|base: int| valid_base(s, base) && rec_at(s, base) == r
}

/// A record is live when its second field parses as a decimal expiry
/// timestamp strictly later than the clock; an unparsable expiry counts as
/// not live (the malformed record is skipped).
pub open spec fn record_live(r: Seq<Seq<char>>, now: u64) -> bool {
    is_dec_string(r[1]) && dec_value(r[1]) <= u64::MAX && dec_value(r[1]) > now
}

/// The cached roster extended by those records among the first `m` fields of
/// the fetch that are not yet present (each compared field-wise against the
/// roster as built so far, so no duplicate is ever appended).
pub open spec fn merged_upto(cached: Seq<Seq<char>>, fetched: Seq<Seq<char>>, m: int) -> Seq<
    Seq<char>,
>
    decreases m,
{
    if m < 7 {
        cached
    } else {
        let p = merged_upto(cached, fetched, m - 7);
        let r = fetched.subrange(m - 7, m);
        if has_record(p, r) {
            p
        } else {
            p + r
        }
    }
}

/// The roster with every non-live record dropped.
pub open spec fn pruned(s: Seq<Seq<char>>, now: u64) -> Seq<Seq<char>>
    decreases s.len(),
{
    if s.len() < 7 {
        Seq::empty()
    } else {
        (if record_live(rec_at(s, 0), now) {
            rec_at(s, 0)
        } else {
            Seq::empty()
        }) + pruned(s.skip(7), now)
    }
}

/// One full refresh: merge then prune, or leave the cache untouched when the
/// fetch is malformed (empty, or not a multiple of the record width).
pub open spec fn roster_refresh(
    cached: Seq<Seq<char>>,
    fetched: Seq<Seq<char>>,
    now: u64,
) -> Seq<Seq<char>> {
    if fetched.len() == 0 || fetched.len() % 7 != 0 {
        cached
    } else {
        pruned(merged_upto(cached, fetched, fetched.len() as int), now)
    }
}

/// Records of a concatenation: positions inside the left part read the left
/// part, later positions read the right part.
proof fn lemma_rec_at_concat(a: Seq<Seq<char>>, b: Seq<Seq<char>>, base: int)
    requires
        a.len() % 7 == 0,
    ensures
        valid_base(a, base) ==> rec_at(a + b, base) == rec_at(a, base),
        valid_base(b, base - a.len()) ==> rec_at(a + b, base) == rec_at(b, base - a.len()),
{
    if valid_base(a, base) {
        assert(rec_at(a + b, base) =~= rec_at(a, base));
    }
    if valid_base(b, base - a.len()) {
        assert(rec_at(a + b, base) =~= rec_at(b, base - a.len()));
    }
}

/// Merging never loses a cached record and appends only fetched records.
proof fn lemma_merged_structure(cached: Seq<Seq<char>>, fetched: Seq<Seq<char>>, m: int)
    requires
        cached.len() % 7 == 0,
        0 <= m <= fetched.len(),
        m % 7 == 0,
        fetched.len() % 7 == 0,
    ensures
        merged_upto(cached, fetched, m).len() % 7 == 0,
        merged_upto(cached, fetched, m).len() >= cached.len(),
        forall|base: int|
            valid_base(cached, base) ==> valid_base(merged_upto(cached, fetched, m), base)
                && rec_at(#[trigger] merged_upto(cached, fetched, m), base) == rec_at(cached, base),
        forall|r: Seq<Seq<char>>|
            #[trigger] has_record(cached, r) ==> has_record(merged_upto(cached, fetched, m), r),
    decreases m,
{
    if m < 7 {
    } else {
        lemma_merged_structure(cached, fetched, m - 7);
        let p = merged_upto(cached, fetched, m - 7);
        let r = fetched.subrange(m - 7, m);
        if !has_record(p, r) {
            assert forall|base: int| valid_base(cached, base) implies valid_base(p + r, base)
                && rec_at(p + r, base) == rec_at(cached, base) by {
                lemma_rec_at_concat(p, r, base);
            }
            assert forall|rr: Seq<Seq<char>>| #[trigger] has_record(cached, rr) implies has_record(
                p + r,
                rr,
            ) by {
                let base = choose|base: int| valid_base(cached, base) && rec_at(cached, base) == rr;
                lemma_rec_at_concat(p, r, base);
                assert(valid_base(p + r, base) && rec_at(p + r, base) == rr);
            }
        }
    }
}

/// Every record of the pruned roster is live, and every live record of the
/// input survives pruning.
proof fn lemma_pruned_structure(s: Seq<Seq<char>>, now: u64)
    requires
        s.len() % 7 == 0,
    ensures
        pruned(s, now).len() % 7 == 0,
        forall|base: int|
            valid_base(pruned(s, now), base) ==> record_live(
                rec_at(#[trigger] pruned(s, now), base),
                now,
            ) && has_record(s, rec_at(pruned(s, now), base)),
        forall|r: Seq<Seq<char>>|
            #[trigger] has_record(s, r) && record_live(r, now) ==> has_record(pruned(s, now), r),
    decreases s.len(),
{
    if s.len() < 7 {
        assert(s.len() == 0);
    } else {
        let rest = s.skip(7);
        assert(rest.len() % 7 == 0);
        lemma_pruned_structure(rest, now);
        let head = rec_at(s, 0);
        let kept: Seq<Seq<char>> = if record_live(head, now) {
            head
        } else {
            Seq::empty()
        };
        assert(kept.len() % 7 == 0);
        // every record of the result is live and comes from s
        assert forall|base: int| valid_base(pruned(s, now), base) implies record_live(
            rec_at(pruned(s, now), base),
            now,
        ) && has_record(s, rec_at(pruned(s, now), base)) by {
            lemma_rec_at_concat(kept, pruned(rest, now), base);
            if valid_base(kept, base) {
                assert(rec_at(pruned(s, now), base) == head);
                assert(valid_base(s, 0) && rec_at(s, 0) == head);
            } else {
                assert(valid_base(pruned(rest, now), base - kept.len()));
                let rr = rec_at(pruned(rest, now), base - kept.len());
                assert(record_live(rr, now) && has_record(rest, rr));
                let b2 = choose|b2: int| valid_base(rest, b2) && rec_at(rest, b2) == rr;
                assert(rec_at(s, b2 + 7) =~= rec_at(rest, b2));
                assert(valid_base(s, b2 + 7));
            }
        }
        // every live record of s survives
        assert forall|r: Seq<Seq<char>>|
            #[trigger] has_record(s, r) && record_live(r, now) implies has_record(
            pruned(s, now),
            r,
        ) by {
            let base = choose|base: int| valid_base(s, base) && rec_at(s, base) == r;
            if base == 0 {
                assert(kept == r);
                lemma_rec_at_concat(kept, pruned(rest, now), 0);
                assert(rec_at(pruned(s, now), 0) == r);
                assert(valid_base(pruned(s, now), 0));
            } else {
                assert(rec_at(rest, base - 7) =~= rec_at(s, base));
                assert(valid_base(rest, base - 7));
                assert(has_record(rest, r));
                let b3 = choose|b3: int|
                    valid_base(pruned(rest, now), b3) && rec_at(pruned(rest, now), b3) == r;
                lemma_rec_at_concat(kept, pruned(rest, now), b3 + kept.len());
                assert(valid_base(pruned(s, now), b3 + kept.len()));
                assert(rec_at(pruned(s, now), b3 + kept.len()) == r);
            }
        }
    }
}

/// Merging a fetched roster identical to the cached one adds nothing, and if
/// no cached record has expired the refresh leaves the cache unchanged.
pub proof fn lemma_roster_refresh_idempotent(cached: Seq<Seq<char>>, now: u64)
    requires
        cached.len() % 7 == 0,
        forall|base: int|
            valid_base(cached, base) ==> record_live(rec_at(cached, base), now),
    ensures
        roster_refresh(cached, cached, now) == cached,
{
    if cached.len() == 0 {
    } else {
        lemma_merged_identity(cached, cached.len() as int);
        lemma_pruned_identity(cached, now);
    }
}

/// Merging in records that are all already present changes nothing.
proof fn lemma_merged_identity(cached: Seq<Seq<char>>, m: int)
    requires
        cached.len() % 7 == 0,
        0 <= m <= cached.len(),
        m % 7 == 0,
    ensures
        merged_upto(cached, cached, m) == cached,
    decreases m,
{
    if m < 7 {
    } else {
        lemma_merged_identity(cached, m - 7);
        let r = cached.subrange(m - 7, m);
        assert(valid_base(cached, m - 7) && rec_at(cached, m - 7) == r);
        assert(has_record(cached, r));
    }
}

/// Pruning a roster whose records are all live changes nothing.
proof fn lemma_pruned_identity(s: Seq<Seq<char>>, now: u64)
    requires
        s.len() % 7 == 0,
        forall|base: int| valid_base(s, base) ==> record_live(rec_at(s, base), now),
    ensures
        pruned(s, now) == s,
    decreases s.len(),
{
    if s.len() < 7 {
        assert(s.len() == 0);
        assert(pruned(s, now) =~= s);
    } else {
        let rest = s.skip(7);
        assert forall|base: int| valid_base(rest, base) implies record_live(
            rec_at(rest, base),
            now,
        ) by {
            assert(rec_at(rest, base) =~= rec_at(s, base + 7));
            assert(valid_base(s, base + 7));
        }
        lemma_pruned_identity(rest, now);
        assert(valid_base(s, 0));
        assert(record_live(rec_at(s, 0), now));
        assert(rec_at(s, 0) + rest =~= s);
    }
}

/// A valid refresh keeps every still-live cached record (the merge is
/// monotonic modulo expiry pruning), and no record with a passed expiry is
/// present afterwards, whatever the fetch held.
pub proof fn lemma_roster_refresh_monotonic_then_pruning(
    cached: Seq<Seq<char>>,
    fetched: Seq<Seq<char>>,
    now: u64,
)
    requires
        cached.len() % 7 == 0,
        fetched.len() % 7 == 0,
        fetched.len() > 0,
    ensures
        forall|r: Seq<Seq<char>>|
            #[trigger] has_record(cached, r) && record_live(r, now) ==> has_record(
                roster_refresh(cached, fetched, now),
                r,
            ),
        forall|base: int|
            valid_base(roster_refresh(cached, fetched, now), base) ==> record_live(
                rec_at(#[trigger] roster_refresh(cached, fetched, now), base),
                now,
            ),
{
    lemma_merged_structure(cached, fetched, fetched.len() as int);
    lemma_pruned_structure(merged_upto(cached, fetched, fetched.len() as int), now);
}

/// No two records of the roster are field-wise identical.
pub open spec fn no_duplicate_records(s: Seq<Seq<char>>) -> bool {
    forall|b1: int, b2: int|
        valid_base(s, b1) && valid_base(s, b2) && b1 != b2 ==> rec_at(s, b1) != rec_at(s, b2)
}

/// Appending only records that are not yet present keeps the roster free of
/// duplicates.
proof fn lemma_merged_no_dup(cached: Seq<Seq<char>>, fetched: Seq<Seq<char>>, m: int)
    requires
        cached.len() % 7 == 0,
        0 <= m <= fetched.len(),
        m % 7 == 0,
        fetched.len() % 7 == 0,
        no_duplicate_records(cached),
    ensures
        no_duplicate_records(merged_upto(cached, fetched, m)),
    decreases m,
{
    if m < 7 {
    } else {
        lemma_merged_no_dup(cached, fetched, m - 7);
        lemma_merged_structure(cached, fetched, m - 7);
        let p = merged_upto(cached, fetched, m - 7);
        let r = fetched.subrange(m - 7, m);
        if !has_record(p, r) {
            assert forall|b1: int, b2: int|
                valid_base(p + r, b1) && valid_base(p + r, b2) && b1 != b2 implies rec_at(
                p + r,
                b1,
            ) != rec_at(p + r, b2) by {
                lemma_rec_at_concat(p, r, b1);
                lemma_rec_at_concat(p, r, b2);
                if b1 + 7 <= p.len() && b2 + 7 <= p.len() {
                    assert(rec_at(p, b1) != rec_at(p, b2));
                } else if b1 + 7 <= p.len() {
                    assert(rec_at(p + r, b2) =~= r);
                    assert(rec_at(p + r, b1) == rec_at(p, b1));
                    assert(rec_at(p, b1) != r);
                } else if b2 + 7 <= p.len() {
                    assert(rec_at(p + r, b1) =~= r);
                    assert(rec_at(p + r, b2) == rec_at(p, b2));
                    assert(rec_at(p, b2) != r);
                } else {
                    assert(b1 == p.len() && b2 == p.len());
                }
            }
        }
    }
}

/// Dropping records cannot introduce duplicates.
proof fn lemma_pruned_no_dup(s: Seq<Seq<char>>, now: u64)
    requires
        s.len() % 7 == 0,
        no_duplicate_records(s),
    ensures
        no_duplicate_records(pruned(s, now)),
    decreases s.len(),
{
    if s.len() < 7 {
        assert(s.len() == 0);
    } else {
        let rest = s.skip(7);
        let head = rec_at(s, 0);
        assert forall|b1: int, b2: int|
            valid_base(rest, b1) && valid_base(rest, b2) && b1 != b2 implies rec_at(rest, b1)
            != rec_at(rest, b2) by {
            assert(rec_at(rest, b1) =~= rec_at(s, b1 + 7));
            assert(rec_at(rest, b2) =~= rec_at(s, b2 + 7));
            assert(valid_base(s, b1 + 7) && valid_base(s, b2 + 7));
        }
        lemma_pruned_no_dup(rest, now);
        lemma_pruned_structure(rest, now);
        let kept: Seq<Seq<char>> = if record_live(head, now) {
            head
        } else {
            Seq::empty()
        };
        let pr = pruned(rest, now);
        assert(pruned(s, now) == kept + pr);
        assert forall|b1: int, b2: int|
            valid_base(kept + pr, b1) && valid_base(kept + pr, b2) && b1 != b2 implies rec_at(
            kept + pr,
            b1,
        ) != rec_at(kept + pr, b2) by {
            if b1 >= kept.len() {
                assert(valid_base(pr, b1 - kept.len()));
            }
            if b2 >= kept.len() {
                assert(valid_base(pr, b2 - kept.len()));
            }
            lemma_rec_at_concat(kept, pr, b1);
            lemma_rec_at_concat(kept, pr, b2);
            if b1 >= kept.len() && b2 >= kept.len() {
                assert(rec_at(pr, b1 - kept.len()) != rec_at(pr, b2 - kept.len()));
            } else {
                // one base names the kept head, the other a record of the rest
                let inner = if b1 < kept.len() {
                    b2
                } else {
                    b1
                };
                assert(kept.len() == 7 && (b1 == 0 || b2 == 0));
                assert(valid_base(pr, inner - 7));
                let rr = rec_at(pr, inner - 7);
                assert(rec_at(kept + pr, inner) == rr);
                assert(record_live(rec_at(pr, inner - 7), now) && has_record(
                    rest,
                    rec_at(pr, inner - 7),
                ));
                if rr == head {
                    let b3 = choose|b3: int| valid_base(rest, b3) && rec_at(rest, b3) == rr;
                    assert(rec_at(s, b3 + 7) =~= rec_at(rest, b3));
                    assert(valid_base(s, b3 + 7) && valid_base(s, 0));
                    assert(rec_at(s, b3 + 7) == rec_at(s, 0));
                    assert(false);
                }
                assert(rec_at(kept + pr, 0) == head);
            }
        }
    }
}

/// The roster invariant: a refresh never yields two field-wise identical
/// records, however the fetch overlaps what is cached.
pub proof fn lemma_roster_refresh_no_duplicates(
    cached: Seq<Seq<char>>,
    fetched: Seq<Seq<char>>,
    now: u64,
)
    requires
        cached.len() % 7 == 0,
        no_duplicate_records(cached),
    ensures
        no_duplicate_records(roster_refresh(cached, fetched, now)),
{
    if fetched.len() == 0 || fetched.len() % 7 != 0 {
    } else {
        lemma_merged_no_dup(cached, fetched, fetched.len() as int);
        lemma_merged_structure(cached, fetched, fetched.len() as int);
        lemma_pruned_no_dup(merged_upto(cached, fetched, fetched.len() as int), now);
    }
}

/// True exactly when the seven fields starting at `ab` in `a` equal the
/// seven fields starting at `bb` in `b`.
fn record_eq_at(a: &Vec<String>, ab: usize, b: &Vec<String>, bb: usize) -> (r: bool)
    requires
        ab + 7 <= a@.len(),
        bb + 7 <= b@.len(),
    ensures
        r == (rec_at(str_views(a@), ab as int) == rec_at(str_views(b@), bb as int)),
{
    let alen = a.len();
    let blen = b.len();
    let mut f: usize = 0;
    while f < 7
        invariant
            0 <= f <= 7,
            ab + 7 <= alen == a@.len(),
            bb + 7 <= blen == b@.len(),
            forall|k: int| 0 <= k < f ==> #[trigger] a@[ab + k]@ == b@[bb + k]@,
        decreases 7 - f,
    {
        if !a[ab + f].eq(&b[bb + f]) {
            proof {
                assert(rec_at(str_views(a@), ab as int)[f as int] == a@[ab + f]@);
                assert(rec_at(str_views(b@), bb as int)[f as int] == b@[bb + f]@);
            }
            return false;
        }
        f = f + 1;
    }
    proof {
        assert forall|k: int| 0 <= k < 7 implies rec_at(str_views(a@), ab as int)[k] == rec_at(
            str_views(b@),
            bb as int,
        )[k] by {
            assert(a@[ab + k]@ == b@[bb + k]@);
        }
        assert(rec_at(str_views(a@), ab as int) =~= rec_at(str_views(b@), bb as int));
    }
    true
}

/// True exactly when the roster holds a record field-wise identical to the
/// record starting at `fb` in `fetched`.
fn contains_record(roster: &Vec<String>, fetched: &Vec<String>, fb: usize) -> (r: bool)
    requires
        roster@.len() % 7 == 0,
        fb + 7 <= fetched@.len(),
    ensures
        r == has_record(str_views(roster@), rec_at(str_views(fetched@), fb as int)),
{
    let rlen = roster.len();
    let mut base: usize = 0;
    while base < rlen
        invariant
            base % 7 == 0,
            0 <= base <= rlen,
            rlen == roster@.len(),
            roster@.len() % 7 == 0,
            fb + 7 <= fetched@.len(),
            forall|b2: int|
                0 <= b2 < base && b2 % 7 == 0 ==> rec_at(str_views(roster@), b2) != rec_at(
                    str_views(fetched@),
                    fb as int,
                ),
        decreases rlen - base,
    {
        proof {
            assert(base + 7 <= rlen);
        }
        if record_eq_at(roster, base, fetched, fb) {
            return true;
        }
        base = base + 7;
    }
    proof {
        assert forall|b2: int|
            valid_base(str_views(roster@), b2) implies rec_at(str_views(roster@), b2) != rec_at(
            str_views(fetched@),
            fb as int,
        ) by {
            assert(b2 < base);
        }
    }
    false
}

/// True exactly when the record starting at `base` is live: its second field
/// parses as a decimal expiry later than the clock.
fn record_live_at(v: &Vec<String>, base: usize, now: u64) -> (r: bool)
    requires
        base + 7 <= v@.len(),
    ensures
        r == record_live(rec_at(str_views(v@), base as int), now),
{
    let vlen = v.len();
    proof {
        assert(rec_at(str_views(v@), base as int)[1] == v@[base + 1]@);
    }
    match crate::digits::parse_dec_u64(v[base + 1].as_str()) {
        Some(expiry) => now < expiry,
        None => false,
    }
}

/// Appends the seven fields of the record starting at `base` in `src`.
fn push_record(dst: &mut Vec<String>, src: &Vec<String>, base: usize)
    requires
        base + 7 <= src@.len(),
    ensures
        str_views(final(dst)@) == str_views(old(dst)@) + rec_at(str_views(src@), base as int),
{
    let slen = src.len();
    let mut f: usize = 0;
    while f < 7
        invariant
            0 <= f <= 7,
            base + 7 <= slen == src@.len(),
            dst@.len() == old(dst)@.len() + f,
            forall|k: int| 0 <= k < old(dst)@.len() ==> #[trigger] dst@[k]@ == old(dst)@[k]@,
            forall|k: int|
                0 <= k < f ==> #[trigger] dst@[old(dst)@.len() + k]@ == src@[base + k]@,
        decreases 7 - f,
    {
        dst.push(src[base + f].clone());
        f = f + 1;
    }
    proof {
        assert forall|k: int| 0 <= k < dst@.len() implies str_views(dst@)[k] == (str_views(
            old(dst)@,
        ) + rec_at(str_views(src@), base as int))[k] by {
            if k < old(dst)@.len() {
                assert(dst@[k]@ == old(dst)@[k]@);
            } else {
                let k2 = k - old(dst)@.len();
                assert(dst@[old(dst)@.len() + k2]@ == src@[base + k2]@);
            }
        }
        assert(str_views(dst@) =~= str_views(old(dst)@) + rec_at(str_views(src@), base as int));
    }
}

/// One refresh of the cached roster against a freshly fetched one: rejects a
/// malformed fetch (length not a non-zero multiple of the record width)
/// leaving the cache unchanged; otherwise appends each fetched record not
/// already present field-for-field, then drops every record whose expiry is
/// at or before `now`.
pub fn merge_roster(cached: &Vec<String>, fetched: &Vec<String>, now: u64) -> (r: Vec<String>)
    requires
        cached@.len() % 7 == 0,
    ensures
        str_views(r@) == roster_refresh(str_views(cached@), str_views(fetched@), now),
        r@.len() % 7 == 0,
{
    if fetched.len() == 0 || fetched.len() % ROSTER_RECORD_WIDTH != 0 {
        let r = clone_strings(cached);
        proof {
            assert(str_views(r@) =~= str_views(cached@));
        }
        return r;
    }
    let mut updated = clone_strings(cached);
    proof {
        assert(str_views(updated@) =~= str_views(cached@));
        assert(merged_upto(str_views(cached@), str_views(fetched@), 0) == str_views(cached@));
    }
    let flen = fetched.len();
    let mut fb: usize = 0;
    while fb < flen
        invariant
            fb % 7 == 0,
            0 <= fb <= flen,
            flen == fetched@.len(),
            cached@.len() % 7 == 0,
            fetched@.len() % 7 == 0,
            fetched@.len() > 0,
            updated@.len() % 7 == 0,
            str_views(updated@) == merged_upto(str_views(cached@), str_views(fetched@), fb as int),
        decreases flen - fb,
    {
        proof {
            assert(fb + 7 <= flen);
            lemma_merged_structure(str_views(cached@), str_views(fetched@), fb as int);
        }
        if !contains_record(&updated, fetched, fb) {
            push_record(&mut updated, fetched, fb);
        }
        proof {
            assert(str_views(updated@).len() == updated@.len());
            assert(rec_at(str_views(fetched@), fb as int) =~= str_views(fetched@).subrange(
                fb as int,
                fb + 7,
            ));
        }
        fb = fb + 7;
    }
    proof {
        assert(fb == fetched@.len());
    }
    // prune expired (and malformed) records
    let mut result: Vec<String> = Vec::new();
    let ghost m = str_views(updated@);
    let mut base: usize = 0;
    proof {
        lemma_merged_structure(
            str_views(cached@),
            str_views(fetched@),
            str_views(fetched@).len() as int,
        );
        assert(pruned(m.subrange(0, 0), now) =~= str_views(result@));
    }
    let ulen = updated.len();
    while base < ulen
        invariant
            base % 7 == 0,
            0 <= base <= ulen,
            ulen == updated@.len(),
            updated@.len() % 7 == 0,
            m == str_views(updated@),
            str_views(result@) == pruned(m.subrange(0, base as int), now),
            result@.len() % 7 == 0,
        decreases ulen - base,
    {
        proof {
            assert(base + 7 <= ulen);
        }
        let ghost pre = m.subrange(0, base as int);
        let ghost pre1 = m.subrange(0, base + 7);
        let ghost rec = rec_at(m, base as int);
        proof {
            lemma_pruned_concat(pre, rec, now);
            assert(pre + rec =~= pre1);
            assert(rec.skip(7) =~= Seq::<Seq<char>>::empty());
            assert(rec_at(rec, 0) =~= rec);
            assert(pruned(rec, now) == (if record_live(rec, now) {
                rec
            } else {
                Seq::<Seq<char>>::empty()
            }) + pruned(rec.skip(7), now));
            assert(pruned(rec.skip(7), now) =~= Seq::<Seq<char>>::empty());
        }
        if record_live_at(&updated, base, now) {
            push_record(&mut result, &updated, base);
            proof {
                assert(pruned(rec, now) =~= rec);
                assert(str_views(result@) =~= pruned(pre1, now));
            }
        } else {
            proof {
                assert(pruned(rec, now) =~= Seq::<Seq<char>>::empty());
                assert(str_views(result@) =~= pruned(pre1, now));
            }
        }
        base = base + 7;
    }
    proof {
        assert(m.subrange(0, m.len() as int) =~= m);
    }
    result
}

/// Pruning distributes over concatenation at a record boundary.
proof fn lemma_pruned_concat(a: Seq<Seq<char>>, b: Seq<Seq<char>>, now: u64)
    requires
        a.len() % 7 == 0,
    ensures
        pruned(a + b, now) == pruned(a, now) + pruned(b, now),
    decreases a.len(),
{
    if a.len() == 0 {
        assert(a + b =~= b);
        assert(pruned(a, now) =~= Seq::<Seq<char>>::empty());
    } else {
        assert(a.len() >= 7);
        assert(rec_at(a + b, 0) =~= rec_at(a, 0));
        assert((a + b).skip(7) =~= a.skip(7) + b);
        lemma_pruned_concat(a.skip(7), b, now);
        assert((if record_live(rec_at(a, 0), now) {
            rec_at(a, 0)
        } else {
            Seq::<Seq<char>>::empty()
        }) + (pruned(a.skip(7), now) + pruned(b, now)) =~= pruned(a, now) + pruned(b, now));
    }
}

} // verus!
