//! Planning the block ranges of log queries, and reducing a batch of logs to
//! the newest one per venue, in cursor order.
use vstd::prelude::*;
use crate::errors::EventLogError;
use crate::event_log::{cursor_before, cursor_le, cursor_lt, Cursor, EventLog};

verus! {

/// Discovery ranges: consecutive windows of `step` blocks from `from`, the
/// last one cut at `to`; none when `from >= to`.
pub open spec fn discovery_windows_spec(from: nat, to: nat, step: nat) -> Seq<(u64, u64)>
    decreases (if from < to { to - from } else { 0 }),
{
    if step == 0 || from >= to {
        seq![]
    } else {
        let target: int = if from + step - 1 < to {
            from + step - 1
        } else {
            to as int
        };
        seq![(from as u64, target as u64)] + discovery_windows_spec(from + step, to, step)
    }
}

/// Splits `[from, to]` into the ranges that discovery queries.
pub fn discovery_windows(from: u64, to: u64, step: u64) -> (r: Vec<(u64, u64)>)
    requires
        step > 0,
    ensures
        r@ == discovery_windows_spec(from as nat, to as nat, step as nat),
{
    let mut out: Vec<(u64, u64)> = Vec::new();
    let mut start: u64 = from;
    while start < to
        invariant
            step > 0,
            out@ + discovery_windows_spec(start as nat, to as nat, step as nat)
                == discovery_windows_spec(from as nat, to as nat, step as nat),
        decreases to - start,
    {
        let target = if to - start >= step {
            start + step - 1
        } else {
            to
        };
        let ghost before = out@;
        out.push((start, target));
        proof {
            assert(before + discovery_windows_spec(start as nat, to as nat, step as nat) =~= out@
                + discovery_windows_spec((start + step) as nat, to as nat, step as nat));
        }
        if to - start <= step {
            proof {
                assert(discovery_windows_spec((start + step) as nat, to as nat, step as nat) =~= Seq::<(u64, u64)>::empty());
                assert(out@ + Seq::<(u64, u64)>::empty() =~= out@);
            }
            return out;
        }
        start = start + step;
    }
    proof {
        assert(out@ + Seq::<(u64, u64)>::empty() =~= out@);
    }
    out
}

/// Reserve-sync ranges: from `start`, windows `[s, min(s + step, latest)]`,
/// the next one starting one past the previous end; none when
/// `start >= latest`.
pub open spec fn sync_windows_spec(start: nat, latest: nat, step: nat) -> Seq<(u64, u64)>
    decreases (if start < latest { latest - start } else { 0 }),
{
    if start >= latest {
        seq![]
    } else {
        let target: nat = if start + step < latest {
            start + step
        } else {
            latest
        };
        seq![(start as u64, target as u64)] + sync_windows_spec(target + 1, latest, step)
    }
}

/// Splits the blocks from `start` to `latest` into the windows that reserve
/// sync replays one after another.
pub fn sync_windows(start: u64, latest: u64, step: u64) -> (r: Vec<(u64, u64)>)
    ensures
        r@ == sync_windows_spec(start as nat, latest as nat, step as nat),
{
    let mut out: Vec<(u64, u64)> = Vec::new();
    let mut s: u64 = start;
    while s < latest
        invariant
            out@ + sync_windows_spec(s as nat, latest as nat, step as nat) == sync_windows_spec(
                start as nat,
                latest as nat,
                step as nat,
            ),
        decreases latest - s,
    {
        let target = if latest - s > step {
            s + step
        } else {
            latest
        };
        let ghost before = out@;
        out.push((s, target));
        proof {
            assert(before + sync_windows_spec(s as nat, latest as nat, step as nat) =~= out@
                + sync_windows_spec((target + 1) as nat, latest as nat, step as nat));
        }
        if target == latest {
            proof {
                assert(sync_windows_spec((target + 1) as nat, latest as nat, step as nat) =~= Seq::<(u64, u64)>::empty());
                assert(out@ + Seq::<(u64, u64)>::empty() =~= out@);
            }
            return out;
        }
        s = target + 1;
    }
    proof {
        assert(out@ + Seq::<(u64, u64)>::empty() =~= out@);
    }
    out
}

/// The sub-ranges queried concurrently within one window: starting at
/// `start` and every `step` blocks while at most `end`, each
/// `[i, min(i + step, end)]`.
pub open spec fn sub_windows_spec(start: nat, end: nat, step: nat) -> Seq<(u64, u64)>
    decreases (if start <= end { end + 1 - start } else { 0 }),
{
    if step == 0 || start > end {
        seq![]
    } else {
        let target: nat = if start + step < end {
            start + step
        } else {
            end
        };
        seq![(start as u64, target as u64)] + sub_windows_spec(start + step, end, step)
    }
}

pub fn sub_windows(start: u64, end: u64, step: u64) -> (r: Vec<(u64, u64)>)
    requires
        step > 0,
    ensures
        r@ == sub_windows_spec(start as nat, end as nat, step as nat),
{
    let mut out: Vec<(u64, u64)> = Vec::new();
    let mut i: u64 = start;
    while i <= end
        invariant
            step > 0,
            out@ + sub_windows_spec(i as nat, end as nat, step as nat) == sub_windows_spec(
                start as nat,
                end as nat,
                step as nat,
            ),
        decreases end + 1 - i,
    {
        let target = if end - i > step {
            i + step
        } else {
            end
        };
        let ghost before = out@;
        out.push((i, target));
        proof {
            assert(before + sub_windows_spec(i as nat, end as nat, step as nat) =~= out@
                + sub_windows_spec((i + step) as nat, end as nat, step as nat));
        }
        if end - i < step {
            proof {
                assert(sub_windows_spec((i + step) as nat, end as nat, step as nat) =~= Seq::<(u64, u64)>::empty());
                assert(out@ + Seq::<(u64, u64)>::empty() =~= out@);
            }
            return out;
        }
        i = i + step;
    }
    proof {
        assert(out@ + Seq::<(u64, u64)>::empty() =~= out@);
    }
    out
}

/// The cursor of a log known to have one.
pub open spec fn log_cursor(log: EventLog) -> Cursor {
    log.cursor_spec()->Ok_0
}

/// The newest log of each venue, in ascending cursor order: one log per
/// address, each among the inputs and at least as new as every input log of
/// its address.
pub open spec fn is_reduction(input: Seq<EventLog>, out: Seq<EventLog>) -> bool {
    &&& forall|i: int, j: int| 0 <= i < j < out.len() ==> cursor_le(log_cursor(#[trigger] out[i]), log_cursor(#[trigger] out[j]))
    &&& forall|i: int, j: int| 0 <= i < out.len() && 0 <= j < out.len() && i != j ==> #[trigger] out[i].address != #[trigger] out[j].address
    &&& forall|i: int| 0 <= i < out.len() ==> input.contains(#[trigger] out[i])
    &&& forall|k: int| 0 <= k < input.len() ==> covers(out, #[trigger] input[k])
}

/// Some log of `out` is of the same venue as `log` and at least as new.
pub open spec fn covers(out: Seq<EventLog>, log: EventLog) -> bool {
    exists|i: int| 0 <= i < out.len() && #[trigger] out[i].address == log.address && cursor_le(log_cursor(log), log_cursor(out[i]))
}

/// Reduces a batch of logs to the newest per venue, sorted by cursor. Fails
/// with a positional error if some log lacks its block number or index.
pub fn reduce_logs(logs: Vec<EventLog>) -> (r: Result<Vec<EventLog>, EventLogError>)
    ensures
        r is Ok <==> forall|k: int| 0 <= k < logs@.len() ==> (#[trigger] logs@[k]).cursor_spec() is Ok,
        r is Err ==> exists|k: int| 0 <= k < logs@.len() && (#[trigger] logs@[k]).cursor_spec() == Err::<Cursor, EventLogError>(r->Err_0),
        r is Ok ==> is_reduction(logs@, r->Ok_0@),
{
    let ghost input = logs@;
    let mut k: usize = 0;
    while k < logs.len()
        invariant
            logs@ == input,
            k <= input.len(),
            forall|m: int| 0 <= m < k ==> (#[trigger] input[m]).cursor_spec() is Ok,
        decreases input.len() - k,
    {
        match logs[k].cursor() {
            Ok(_) => {},
            Err(e) => return Err(e),
        }
        k = k + 1;
    }
    let mut rest = logs;
    let mut sorted: Vec<EventLog> = Vec::new();
    let ghost mut done: int = 0;
    while rest.len() > 0
        invariant
            0 <= done <= input.len(),
            rest@ == input.subrange(done, input.len() as int),
            forall|m: int| 0 <= m < input.len() ==> (#[trigger] input[m]).cursor_spec() is Ok,
            is_reduction(input.subrange(0, done), sorted@),
        decreases rest@.len(),
    {
        let log = rest.remove(0);
        let ghost prefix = input.subrange(0, done);
        let ghost next = input.subrange(0, done + 1);
        proof {
            assert(input[done] == log);
            assert(next =~= prefix.push(log));
        }
        sorted = merge_newest(sorted, log, Ghost(prefix));
        proof {
            done = done + 1;
            assert(rest@ =~= input.subrange(done, input.len() as int));
        }
    }
    proof {
        assert(input.subrange(0, done) =~= input);
    }
    Ok(sorted)
}

/// Adds `log` to a reduction of `prefix`: it replaces an older log of its
/// venue, is dropped behind a newer or equal one, and otherwise goes in at
/// its place in cursor order.
fn merge_newest(sorted: Vec<EventLog>, log: EventLog, prefix: Ghost<Seq<EventLog>>) -> (r: Vec<EventLog>)
    requires
        is_reduction(prefix@, sorted@),
        log.cursor_spec() is Ok,
        forall|m: int| 0 <= m < prefix@.len() ==> (#[trigger] prefix@[m]).cursor_spec() is Ok,
    ensures
        is_reduction(prefix@.push(log), r@),
{
    let ghost input = prefix@.push(log);
    let c = match log.cursor() {
        Ok(c) => c,
        Err(_) => return sorted,
    };
    let mut sorted = sorted;
    // Find the venue's entry, if any.
    let mut i: usize = 0;
    let mut found = false;
    while i < sorted.len()
        invariant
            i <= sorted@.len(),
            forall|j: int| 0 <= j < i ==> (#[trigger] sorted@[j]).address != log.address,
            found ==> i < sorted@.len() && sorted@[i as int].address == log.address,
        ensures
            !found ==> i == sorted@.len(),
            found ==> i < sorted@.len() && sorted@[i as int].address == log.address,
        decreases sorted@.len() - i + (if found { 0int } else { 1int }),
    {
        if sorted[i].address == log.address {
            found = true;
            break;
        }
        i = i + 1;
    }
    if found {
        let old_c = match sorted[i].cursor() {
            Ok(oc) => oc,
            Err(_) => (0, 0),
        };
        proof {
            assert(prefix@.contains(sorted@[i as int]));
            let m = choose|m: int| 0 <= m < prefix@.len() && prefix@[m] == sorted@[i as int];
            assert(prefix@[m].cursor_spec() is Ok);
        }
        if !cursor_before(old_c, c) {
            proof {
                lemma_reduction_keeps(prefix@, sorted@, log, i as int);
            }
            return sorted;
        }
        let ghost before = sorted@;
        sorted.remove(i);
        proof {
            lemma_reduction_without(prefix@, before, log, i as int);
        }
    } else {
        proof {
            lemma_reduction_absent(prefix@, sorted@, log);
        }
    }
    // Insert at its place in cursor order.
    let ghost mid = sorted@;
    let mut p: usize = 0;
    let mut placed = false;
    while p < sorted.len()
        invariant
            p <= sorted@.len(),
            sorted@ == mid,
            partial_reduction(prefix@, mid, log),
            log_cursor(log) == c,
            forall|j: int| 0 <= j < p ==> cursor_le(log_cursor(#[trigger] mid[j]), c),
            placed ==> p < mid.len() && cursor_lt(c, log_cursor(mid[p as int])),
        ensures
            p <= mid.len(),
            forall|j: int| 0 <= j < p ==> cursor_le(log_cursor(#[trigger] mid[j]), c),
            p < mid.len() ==> cursor_lt(c, log_cursor(mid[p as int])),
        decreases sorted@.len() - p + (if placed { 0int } else { 1int }),
    {
        let pc = match sorted[p].cursor() {
            Ok(pc) => pc,
            Err(_) => (0, 0),
        };
        if cursor_before(c, pc) {
            placed = true;
            break;
        }
        p = p + 1;
    }
    proof {
        lemma_reduction_insert(prefix@, mid, log, p as int);
    }
    sorted.insert(p, log);
    sorted
}

/// A reduction of `prefix` from which the venue of `log` is absent, and
/// whose logs of that venue are no newer than `log`.
pub open spec fn partial_reduction(prefix: Seq<EventLog>, mid: Seq<EventLog>, log: EventLog) -> bool {
    &&& log.cursor_spec() is Ok
    &&& forall|m: int| 0 <= m < mid.len() ==> (#[trigger] mid[m]).cursor_spec() is Ok
    &&& forall|i: int, j: int| 0 <= i < j < mid.len() ==> cursor_le(log_cursor(#[trigger] mid[i]), log_cursor(#[trigger] mid[j]))
    &&& forall|i: int, j: int| 0 <= i < mid.len() && 0 <= j < mid.len() && i != j ==> #[trigger] mid[i].address != #[trigger] mid[j].address
    &&& forall|i: int| 0 <= i < mid.len() ==> prefix.contains(#[trigger] mid[i])
    &&& forall|i: int| 0 <= i < mid.len() ==> (#[trigger] mid[i]).address != log.address
    &&& forall|k: int| 0 <= k < prefix.len() && (#[trigger] prefix[k]).address != log.address ==> covers(mid, prefix[k])
    &&& forall|k: int| 0 <= k < prefix.len() && (#[trigger] prefix[k]).address == log.address ==> cursor_le(log_cursor(prefix[k]), log_cursor(log))
}

proof fn lemma_reduction_cursors(prefix: Seq<EventLog>, sorted: Seq<EventLog>)
    requires
        is_reduction(prefix, sorted),
        forall|m: int| 0 <= m < prefix.len() ==> (#[trigger] prefix[m]).cursor_spec() is Ok,
    ensures
        forall|m: int| 0 <= m < sorted.len() ==> (#[trigger] sorted[m]).cursor_spec() is Ok,
{
    assert forall|m: int| 0 <= m < sorted.len() implies (#[trigger] sorted[m]).cursor_spec() is Ok by {
        assert(prefix.contains(sorted[m]));
        let q = choose|q: int| 0 <= q < prefix.len() && prefix[q] == sorted[m];
        assert(prefix[q].cursor_spec() is Ok);
    }
}

proof fn lemma_reduction_keeps(prefix: Seq<EventLog>, sorted: Seq<EventLog>, log: EventLog, i: int)
    requires
        is_reduction(prefix, sorted),
        0 <= i < sorted.len(),
        sorted[i].address == log.address,
        log.cursor_spec() is Ok,
        sorted[i].cursor_spec() is Ok,
        !cursor_lt(log_cursor(sorted[i]), log_cursor(log)),
    ensures
        is_reduction(prefix.push(log), sorted),
{
    let input = prefix.push(log);
    assert forall|m: int| 0 <= m < sorted.len() implies input.contains(#[trigger] sorted[m]) by {
        assert(prefix.contains(sorted[m]));
        let q = choose|q: int| 0 <= q < prefix.len() && prefix[q] == sorted[m];
        assert(input[q] == sorted[m]);
    }
    assert forall|k: int| 0 <= k < input.len() implies covers(sorted, #[trigger] input[k]) by {
        if k < prefix.len() {
            assert(input[k] == prefix[k]);
        } else {
            assert(input[k] == log);
            assert(sorted[i].address == input[k].address && cursor_le(log_cursor(input[k]), log_cursor(sorted[i])));
        }
    }
}

proof fn lemma_reduction_without(prefix: Seq<EventLog>, sorted: Seq<EventLog>, log: EventLog, i: int)
    requires
        is_reduction(prefix, sorted),
        0 <= i < sorted.len(),
        sorted[i].address == log.address,
        log.cursor_spec() is Ok,
        forall|m: int| 0 <= m < prefix.len() ==> (#[trigger] prefix[m]).cursor_spec() is Ok,
        cursor_lt(log_cursor(sorted[i]), log_cursor(log)),
    ensures
        partial_reduction(prefix, sorted.remove(i), log),
{
    lemma_reduction_cursors(prefix, sorted);
    let mid = sorted.remove(i);
    assert forall|a: int| 0 <= a < mid.len() implies (#[trigger] mid[a]).address != log.address by {
        let a2 = if a < i { a } else { a + 1 };
        assert(mid[a] == sorted[a2]);
        assert(sorted[a2].address != sorted[i].address);
    }
    assert forall|a: int, b: int| 0 <= a < b < mid.len() implies cursor_le(log_cursor(#[trigger] mid[a]), log_cursor(#[trigger] mid[b])) by {
        let a2 = if a < i { a } else { a + 1 };
        let b2 = if b < i { b } else { b + 1 };
        assert(mid[a] == sorted[a2] && mid[b] == sorted[b2]);
    }
    assert forall|a: int, b: int| 0 <= a < mid.len() && 0 <= b < mid.len() && a != b implies #[trigger] mid[a].address != #[trigger] mid[b].address by {
        let a2 = if a < i { a } else { a + 1 };
        let b2 = if b < i { b } else { b + 1 };
        assert(mid[a] == sorted[a2] && mid[b] == sorted[b2]);
    }
    assert forall|a: int| 0 <= a < mid.len() implies prefix.contains(#[trigger] mid[a]) by {
        let a2 = if a < i { a } else { a + 1 };
        assert(mid[a] == sorted[a2]);
    }
    assert forall|a: int| 0 <= a < mid.len() implies (#[trigger] mid[a]).cursor_spec() is Ok by {
        let a2 = if a < i { a } else { a + 1 };
        assert(mid[a] == sorted[a2]);
    }
    assert forall|k: int| 0 <= k < prefix.len() && (#[trigger] prefix[k]).address != log.address implies covers(mid, prefix[k]) by {
        assert(covers(sorted, prefix[k]));
        let j = choose|j: int| 0 <= j < sorted.len() && #[trigger] sorted[j].address == prefix[k].address
            && cursor_le(log_cursor(prefix[k]), log_cursor(sorted[j]));
        assert(j != i);
        let j2 = if j < i { j } else { j - 1 };
        assert(mid[j2] == sorted[j]);
        assert(mid[j2].address == prefix[k].address && cursor_le(log_cursor(prefix[k]), log_cursor(mid[j2])));
    }
    assert forall|k: int| 0 <= k < prefix.len() && (#[trigger] prefix[k]).address == log.address implies cursor_le(log_cursor(prefix[k]), log_cursor(log)) by {
        assert(covers(sorted, prefix[k]));
        let j = choose|j: int| 0 <= j < sorted.len() && #[trigger] sorted[j].address == prefix[k].address
            && cursor_le(log_cursor(prefix[k]), log_cursor(sorted[j]));
        if j != i {
            assert(sorted[j].address != sorted[i].address);
        }
    }
}

proof fn lemma_reduction_absent(prefix: Seq<EventLog>, sorted: Seq<EventLog>, log: EventLog)
    requires
        is_reduction(prefix, sorted),
        forall|j: int| 0 <= j < sorted.len() ==> (#[trigger] sorted[j]).address != log.address,
        log.cursor_spec() is Ok,
        forall|m: int| 0 <= m < prefix.len() ==> (#[trigger] prefix[m]).cursor_spec() is Ok,
    ensures
        partial_reduction(prefix, sorted, log),
{
    lemma_reduction_cursors(prefix, sorted);
    assert forall|k: int| 0 <= k < prefix.len() && (#[trigger] prefix[k]).address == log.address implies cursor_le(log_cursor(prefix[k]), log_cursor(log)) by {
        assert(covers(sorted, prefix[k]));
        let j = choose|j: int| 0 <= j < sorted.len() && #[trigger] sorted[j].address == prefix[k].address
            && cursor_le(log_cursor(prefix[k]), log_cursor(sorted[j]));
        assert(sorted[j].address != log.address);
    }
}

proof fn lemma_reduction_insert(prefix: Seq<EventLog>, mid: Seq<EventLog>, log: EventLog, p: int)
    requires
        partial_reduction(prefix, mid, log),
        0 <= p <= mid.len(),
        forall|j: int| 0 <= j < p ==> cursor_le(log_cursor(#[trigger] mid[j]), log_cursor(log)),
        p < mid.len() ==> cursor_lt(log_cursor(log), log_cursor(mid[p])),
    ensures
        is_reduction(prefix.push(log), mid.insert(p, log)),
{
    let input = prefix.push(log);
    let out = mid.insert(p, log);
    assert forall|j: int| 0 <= j < out.len() implies (#[trigger] out[j]) == (if j < p { mid[j] } else if j == p { log } else { mid[j - 1] }) by {}
    assert forall|a: int, b: int| 0 <= a < b < out.len() implies cursor_le(log_cursor(#[trigger] out[a]), log_cursor(#[trigger] out[b])) by {
        if a < p && b > p {
            assert(cursor_le(log_cursor(mid[a]), log_cursor(mid[b - 1])));
        } else if a == p && b > p {
            if b - 1 > p {
                assert(cursor_le(log_cursor(mid[p]), log_cursor(mid[b - 1])));
            }
        }
    }
    assert forall|a: int, b: int| 0 <= a < out.len() && 0 <= b < out.len() && a != b implies #[trigger] out[a].address != #[trigger] out[b].address by {}
    assert forall|a: int| 0 <= a < out.len() implies input.contains(#[trigger] out[a]) by {
        if a == p {
            assert(input[prefix.len() as int] == log);
        } else {
            let a2 = if a < p { a } else { a - 1 };
            assert(prefix.contains(mid[a2]));
            let q = choose|q: int| 0 <= q < prefix.len() && prefix[q] == mid[a2];
            assert(input[q] == mid[a2]);
        }
    }
    assert forall|k: int| 0 <= k < input.len() implies covers(out, #[trigger] input[k]) by {
        assert(out[p] == log);
        if k == prefix.len() {
            assert(input[k] == log);
            assert(out[p].address == input[k].address && cursor_le(log_cursor(input[k]), log_cursor(out[p])));
        } else {
            assert(input[k] == prefix[k]);
            if prefix[k].address == log.address {
                assert(out[p].address == input[k].address && cursor_le(log_cursor(input[k]), log_cursor(out[p])));
            } else {
                assert(covers(mid, prefix[k]));
                let j = choose|j: int| 0 <= j < mid.len() && #[trigger] mid[j].address == prefix[k].address
                    && cursor_le(log_cursor(prefix[k]), log_cursor(mid[j]));
                let j2 = if j < p { j } else { j + 1 };
                assert(out[j2] == mid[j]);
                assert(out[j2].address == input[k].address && cursor_le(log_cursor(input[k]), log_cursor(out[j2])));
            }
        }
    }
    assert(is_reduction(input, out));
}

} // verus!
