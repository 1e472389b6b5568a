//! What holds of every cycle, proved from the contracts of the engine.

use crate::check::{cycle_log, cycle_parts, fatal_pair, Registration};
use crate::command::{lemma_run_concat, lemma_run_wf, lemma_step_wf, run, step, Command};
use crate::entity::{Entity, Record};
use crate::filter::CheckFilter;
use crate::state::{descends, live, world_wf, WorldState};
use vstd::prelude::*;
use vstd::seq_lib::lemma_flatten_concat;

verus! {

/// The command sets `Checked` on the entity in slot `i`, or removes it.
pub open spec fn settles(c: Command, i: int) -> bool {
    c.target().index == i && (c is Check || c is Invalidate || c is DespawnRecursive)
}

/// The command clears the markers of the entity in slot `i`.
pub open spec fn rechecks(c: Command, i: int) -> bool {
    c.target().index == i && c is CheckAgain
}

/// A part of a list of parts stands, whole and in place, in the flattened
/// list.
pub proof fn lemma_part_in_flatten(parts: Seq<Seq<Command>>, j: int)
    requires
        0 <= j < parts.len(),
    ensures
        parts.flatten() == parts.take(j).flatten() + parts[j] + parts.skip(j + 1).flatten(),
{
    let a = parts.take(j);
    let b = seq![parts[j]];
    let c = parts.skip(j + 1);
    assert(parts =~= a + b + c);
    lemma_flatten_concat(a + b, c);
    lemma_flatten_concat(a, b);
    b.lemma_flatten_one_element();
}

/// Once a log has set `Checked` on an entity or removed it, and does not
/// clear the entity's markers afterwards, the entity ends removed or
/// checked.
pub proof fn lemma_settled(w: WorldState, log: Seq<Command>, i: int, k: int)
    requires
        world_wf(w),
        0 <= k < log.len(),
        settles(log[k], i),
        forall|m: int| k < m < log.len() ==> !rechecks(#[trigger] log[m], i),
    ensures
        !live(run(w, log), i) || run(w, log)[i]->0.checked,
    decreases log.len(),
{
    let before = run(w, log.drop_last());
    let c = log.last();
    lemma_run_wf(w, log.drop_last());
    lemma_step_wf(before, c);
    if k == log.len() - 1 {
        if c is DespawnRecursive {
            assert(descends(before, i, i));
        }
    } else {
        assert(log.drop_last()[k] == log[k]);
        assert forall|m: int| k < m < log.drop_last().len() implies !rechecks(
            #[trigger] log.drop_last()[m],
            i,
        ) by {
            assert(log.drop_last()[m] == log[m]);
        }
        lemma_settled(w, log.drop_last(), i, k);
        assert(!rechecks(log[log.len() - 1], i));
    }
}

/// Where a check evaluates the entity in slot `i`, and does not abort on
/// it, what it queues for the slot begins with a command that sets
/// `Checked` on the entity or removes it.
pub proof fn lemma_verdict_settles(c: Registration, w: WorldState, i: int, out: Seq<Command>)
    requires
        world_wf(w),
        live(w, i),
        c.applies(w[i]->0),
        !c.fatal_at(w, i),
        c.slot_log(w, i, out),
    ensures
        out.len() > 0,
        settles(out[0], i),
{
}

/// What one check queues for one slot stands, whole, somewhere in the
/// cycle's log.
pub proof fn lemma_slot_in_cycle(
    checks: Seq<Registration>,
    w: WorldState,
    log: Seq<Command>,
    k: int,
    i: int,
) -> (r: (Seq<Command>, Seq<Command>, Seq<Command>))
    requires
        cycle_log(checks, w, checks.len() as int, log),
        0 <= k < checks.len(),
        0 <= i < w.len(),
    ensures
        log == r.0 + r.1 + r.2,
        checks[k].slot_log(w, i, r.1),
{
    let parts = choose|parts: Seq<Seq<Command>>| #[trigger]
        cycle_parts(checks, w, checks.len() as int, parts) && log == parts.flatten();
    assert(checks[k].scan_log(w, w.len() as int, parts[k]));
    let sub = choose|sub: Seq<Seq<Command>>| #[trigger]
        checks[k].scan_parts(w, w.len() as int, sub) && parts[k] == sub.flatten();
    assert(checks[k].slot_log(w, i, sub[i]));
    lemma_part_in_flatten(parts, k);
    lemma_part_in_flatten(sub, i);
    let a = parts.take(k).flatten();
    let b = parts.skip(k + 1).flatten();
    let c = sub.take(i).flatten();
    let d = sub.skip(i + 1).flatten();
    assert(log =~= (a + c) + sub[i] + (d + b));
    (a + c, sub[i], d + b)
}

/// Single pass: an entity that some check evaluates in a cycle, and that
/// no re-check reaches in that cycle, ends the cycle in exactly one of
/// three states, unless the cycle aborts: removed, checked and valid, or
/// checked and invalid.
pub proof fn law_single_pass(
    checks: Seq<Registration>,
    w: WorldState,
    log: Seq<Command>,
    k: int,
    i: int,
)
    requires
        world_wf(w),
        cycle_log(checks, w, checks.len() as int, log),
        forall|k2: int, i2: int| !#[trigger] fatal_pair(checks, w, k2, i2),
        0 <= k < checks.len(),
        live(w, i),
        checks[k].applies(w[i]->0),
        forall|m: int| 0 <= m < log.len() ==> !rechecks(#[trigger] log[m], i),
    ensures
        ({
            let after = run(w, log);
            ||| !live(after, i)
            ||| live(after, i) && after[i]->0.checked && !after[i]->0.invalid
            ||| live(after, i) && after[i]->0.checked && after[i]->0.invalid
        }),
{
    let (head, out, tail) = lemma_slot_in_cycle(checks, w, log, k, i);
    assert(!fatal_pair(checks, w, k, i));
    lemma_verdict_settles(checks[k], w, i, out);
    let pos = head.len() as int;
    assert(log[pos] == out[0]);
    lemma_settled(w, log, i, pos);
}

/// A checked entity stays checked through a log that does not clear its
/// markers, for as long as it stays in the store.
pub proof fn lemma_stays_checked(w: WorldState, log: Seq<Command>, i: int)
    requires
        world_wf(w),
        live(w, i),
        w[i]->0.checked,
        forall|m: int| 0 <= m < log.len() ==> !rechecks(#[trigger] log[m], i),
    ensures
        !live(run(w, log), i) || run(w, log)[i]->0.checked,
    decreases log.len(),
{
    if log.len() > 0 {
        let before = run(w, log.drop_last());
        assert forall|m: int| 0 <= m < log.drop_last().len() implies !rechecks(
            #[trigger] log.drop_last()[m],
            i,
        ) by {
            assert(log.drop_last()[m] == log[m]);
        }
        lemma_stays_checked(w, log.drop_last(), i);
        lemma_run_wf(w, log.drop_last());
        lemma_step_wf(before, log.last());
        assert(!rechecks(log[log.len() - 1], i));
    }
}

/// Idempotence, for one check: a check queues nothing for a checked
/// entity, and does not abort on it.
pub proof fn law_checked_is_skipped(c: Registration, w: WorldState, i: int, out: Seq<Command>)
    requires
        live(w, i),
        w[i]->0.checked,
        c.slot_log(w, i, out),
    ensures
        out == Seq::<Command>::empty(),
        !c.fatal_at(w, i),
{
}

/// Idempotence, over a cycle: a checked entity that no re-check reaches
/// in a cycle is still checked after it, or removed; so that no check
/// evaluates it in the next cycle either.
pub proof fn law_idempotent(
    checks: Seq<Registration>,
    w: WorldState,
    log: Seq<Command>,
    i: int,
)
    requires
        world_wf(w),
        live(w, i),
        w[i]->0.checked,
        cycle_log(checks, w, checks.len() as int, log),
        forall|m: int| 0 <= m < log.len() ==> !rechecks(#[trigger] log[m], i),
    ensures
        !live(run(w, log), i) || run(w, log)[i]->0.checked,
        forall|k: int|
            0 <= k < checks.len() && live(run(w, log), i) ==> !(#[trigger] checks[k]).applies(
                run(w, log)[i]->0,
            ),
{
    lemma_stays_checked(w, log, i);
}

/// Snapshot isolation, composing: what two checks queue in one cycle is
/// what each queues on its own for the store as it stood before the cycle,
/// one log behind the other, in either order of registration.
pub proof fn law_snapshot_isolation(
    a: Registration,
    b: Registration,
    w: WorldState,
    la: Seq<Command>,
    lb: Seq<Command>,
)
    requires
        a.scan_log(w, w.len() as int, la),
        b.scan_log(w, w.len() as int, lb),
    ensures
        cycle_log(seq![a, b], w, 2, la + lb),
        cycle_log(seq![b, a], w, 2, lb + la),
{
    let pab = seq![la, lb];
    let pba = seq![lb, la];
    assert(cycle_parts(seq![a, b], w, 2, pab));
    assert(cycle_parts(seq![b, a], w, 2, pba));
    lemma_flatten_concat(seq![la], seq![lb]);
    lemma_flatten_concat(seq![lb], seq![la]);
    seq![la].lemma_flatten_one_element();
    seq![lb].lemma_flatten_one_element();
    assert(pab =~= seq![la] + seq![lb]);
    assert(pba =~= seq![lb] + seq![la]);
}

/// Snapshot isolation, splitting: the log of a cycle of two checks falls
/// into two logs, each of which is what the one check queues for the store
/// as it stood before the cycle, whatever the other check queued.
pub proof fn law_snapshot_isolation_split(
    a: Registration,
    b: Registration,
    w: WorldState,
    log: Seq<Command>,
) -> (r: (Seq<Command>, Seq<Command>))
    requires
        cycle_log(seq![a, b], w, 2, log),
    ensures
        log == r.0 + r.1,
        a.scan_log(w, w.len() as int, r.0),
        b.scan_log(w, w.len() as int, r.1),
{
    let checks = seq![a, b];
    let parts = choose|parts: Seq<Seq<Command>>| #[trigger]
        cycle_parts(checks, w, 2, parts) && log == parts.flatten();
    assert(checks[0].scan_log(w, w.len() as int, parts[0]));
    assert(checks[1].scan_log(w, w.len() as int, parts[1]));
    assert(parts =~= seq![parts[0]] + seq![parts[1]]);
    lemma_flatten_concat(seq![parts[0]], seq![parts[1]]);
    seq![parts[0]].lemma_flatten_one_element();
    seq![parts[1]].lemma_flatten_one_element();
    (parts[0], parts[1])
}

/// Snapshot isolation, aborting: two checks abort a cycle in one order of
/// registration if and only if they abort it in the other. A check that
/// finds nothing on an entity hides the entity from no other check.
pub proof fn law_abort_ignores_order(a: Registration, b: Registration, w: WorldState)
    ensures
        (exists|k: int, i: int| fatal_pair(seq![a, b], w, k, i)) <==> (exists|k: int, i: int|
            fatal_pair(seq![b, a], w, k, i)),
        (exists|k: int, i: int| fatal_pair(seq![a, b], w, k, i)) <==> (exists|i: int|
            a.fatal_at(w, i) || b.fatal_at(w, i)),
{
    let ab = seq![a, b];
    let ba = seq![b, a];
    if exists|k: int, i: int| fatal_pair(ab, w, k, i) {
        let (k, i) = choose|k: int, i: int| fatal_pair(ab, w, k, i);
        assert(fatal_pair(ba, w, 1 - k, i));
        assert(a.fatal_at(w, i) || b.fatal_at(w, i));
    }
    if exists|k: int, i: int| fatal_pair(ba, w, k, i) {
        let (k, i) = choose|k: int, i: int| fatal_pair(ba, w, k, i);
        assert(fatal_pair(ab, w, 1 - k, i));
    }
    if exists|i: int| a.fatal_at(w, i) || b.fatal_at(w, i) {
        let i = choose|i: int| a.fatal_at(w, i) || b.fatal_at(w, i);
        if a.fatal_at(w, i) {
            assert(fatal_pair(ab, w, 0, i));
        } else {
            assert(fatal_pair(ab, w, 1, i));
        }
    }
}

/// No log changes who owns an entity that it leaves in the store.
pub proof fn lemma_run_keeps_owners(w: WorldState, log: Seq<Command>)
    requires
        world_wf(w),
    ensures
        forall|i: int| #[trigger]
            live(run(w, log), i) ==> run(w, log)[i]->0.parent == w[i]->0.parent,
    decreases log.len(),
{
    if log.len() > 0 {
        lemma_run_keeps_owners(w, log.drop_last());
        lemma_run_wf(w, log.drop_last());
        let before = run(w, log.drop_last());
        lemma_step_wf(before, log.last());
        assert forall|i: int| #[trigger] live(run(w, log), i) implies run(w, log)[i]->0.parent
            == w[i]->0.parent by {
            assert(live(before, i));
        }
    }
}

/// What an entity owned in a store, it still owns in a later store, as far
/// as it is left.
pub proof fn lemma_descends_persists(w: WorldState, v: WorldState, d: int, a: int)
    requires
        world_wf(v),
        forall|i: int| #[trigger] live(v, i) ==> live(w, i) && v[i]->0.parent == w[i]->0.parent,
        live(v, d),
        descends(w, d, a),
    ensures
        descends(v, d, a),
    decreases d,
{
    if d != a {
        let p = w[d]->0.parent->0.index as int;
        assert(live(v, p));
        lemma_descends_persists(w, v, p, a);
    }
}

/// A log that holds the cascading removal of an entity leaves neither the
/// entity nor anything it owned in the store.
pub proof fn lemma_purged(w: WorldState, log: Seq<Command>, k: int, a: Entity, d: int)
    requires
        world_wf(w),
        0 <= k < log.len(),
        log[k] == Command::DespawnRecursive(a),
        descends(w, d, a.index as int),
    ensures
        !live(run(w, log), d),
{
    let head = log.take(k);
    let one = seq![log[k]];
    let tail = log.skip(k + 1);
    assert(log =~= head + one + tail);
    lemma_run_concat(w, head + one, tail);
    lemma_run_concat(w, head, one);
    let v = run(w, head);
    assert(one.drop_last() =~= Seq::<Command>::empty());
    assert(run(v, one.drop_last()) == v);
    assert(one.last() == log[k]);
    assert(run(v, one) == step(v, log[k]));
    lemma_run_wf(w, head);
    lemma_run_keeps_owners(w, head);
    if live(v, d) {
        lemma_descends_persists(w, v, d, a.index as int);
    }
    let u = step(v, log[k]);
    assert(!live(u, d));
    lemma_step_wf(v, log[k]);
    lemma_run_wf(u, tail);
    assert(run(w, log) == run(u, tail));
    assert(live(run(u, tail), d) ==> live(u, d));
}

/// Purge cascades: where a check with the `Purge` policy matches an
/// entity, neither the entity nor anything it owns is in the store after
/// the cycle.
pub proof fn law_purge_cascades(
    checks: Seq<Registration>,
    w: WorldState,
    log: Seq<Command>,
    k: int,
    i: int,
    d: int,
)
    requires
        world_wf(w),
        cycle_log(checks, w, checks.len() as int, log),
        0 <= k < checks.len(),
        live(w, i),
        checks[k].matched(w[i]->0),
        checks[k].policy is Purge,
        descends(w, d, i),
    ensures
        !live(run(w, log), i),
        !live(run(w, log), d),
{
    let (head, out, tail) = lemma_slot_in_cycle(checks, w, log, k, i);
    let e = Entity { index: i as u32 };
    assert(out == seq![Command::DespawnRecursive(e)]);
    let pos = head.len() as int;
    assert(log[pos] == out[0]);
    lemma_purged(w, log, pos, e, d);
    lemma_purged(w, log, pos, e, i);
}

/// The command sets a marker on the entity in slot `i`.
pub open spec fn marks(c: Command, i: int) -> bool {
    c.target().index == i && (c is Check || c is Invalidate)
}

/// The re-check prevails: where a log clears the markers of an entity and
/// sets none on it afterwards, the entity ends the log without `Checked`
/// and without `Invalid`, so that every check of its kind evaluates it in
/// the next cycle.
pub proof fn law_recheck_prevails(w: WorldState, log: Seq<Command>, i: int, k: int)
    requires
        world_wf(w),
        0 <= k < log.len(),
        rechecks(log[k], i),
        forall|m: int| k < m < log.len() ==> !marks(#[trigger] log[m], i),
    ensures
        live(run(w, log), i) ==> !run(w, log)[i]->0.checked && !run(w, log)[i]->0.invalid,
    decreases log.len(),
{
    let before = run(w, log.drop_last());
    lemma_run_wf(w, log.drop_last());
    lemma_step_wf(before, log.last());
    if k < log.len() - 1 {
        assert(log.drop_last()[k] == log[k]);
        assert forall|m: int| k < m < log.drop_last().len() implies !marks(
            #[trigger] log.drop_last()[m],
            i,
        ) by {
            assert(log.drop_last()[m] == log[m]);
        }
        law_recheck_prevails(w, log.drop_last(), i, k);
        assert(!marks(log[log.len() - 1], i));
    }
}

/// The command sets `Checked`, or attaches `record`.
pub open spec fn mends(c: Command, record: Record) -> bool {
    c is Check || c == Command::Insert(c.target(), record)
}

/// Where every command of every part satisfies `p`, so does every command
/// of the flattened list.
pub proof fn lemma_flatten_all(parts: Seq<Seq<Command>>, p: spec_fn(Command) -> bool)
    requires
        forall|j: int, m: int|
            0 <= j < parts.len() && 0 <= m < parts[j].len() ==> p(#[trigger] parts[j][m]),
    ensures
        forall|m: int| 0 <= m < parts.flatten().len() ==> p(#[trigger] parts.flatten()[m]),
    decreases parts.len(),
{
    if parts.len() > 0 {
        let rest = parts.drop_first();
        assert forall|j: int, m: int| 0 <= j < rest.len() && 0 <= m < rest[j].len() implies p(
            #[trigger] rest[j][m],
        ) by {
            assert(rest[j][m] == parts[j + 1][m]);
        }
        lemma_flatten_all(rest, p);
        let flat = parts.flatten();
        assert(flat == parts.first() + rest.flatten());
        assert forall|m: int| 0 <= m < flat.len() implies p(#[trigger] flat[m]) by {
            if m < parts.first().len() {
                assert(flat[m] == parts[0][m]);
            } else {
                assert(flat[m] == rest.flatten()[m - parts.first().len()]);
            }
        }
    }
}

/// A log that only sets `Checked` and attaches `record` removes nothing,
/// sets no `Invalid`, clears no `Checked`, and leaves `record` where it
/// was attached.
pub proof fn lemma_mending_run(w: WorldState, log: Seq<Command>, i: int, record: Record)
    requires
        world_wf(w),
        live(w, i),
        forall|m: int| 0 <= m < log.len() ==> mends(#[trigger] log[m], record),
    ensures
        live(run(w, log), i),
        run(w, log)[i]->0.invalid == w[i]->0.invalid,
        w[i]->0.checked ==> run(w, log)[i]->0.checked,
        w[i]->0.records.contains_key(record.tag) && w[i]->0.records[record.tag] == record.value
            ==> run(w, log)[i]->0.records.contains_key(record.tag) && run(
            w,
            log,
        )[i]->0.records[record.tag] == record.value,
    decreases log.len(),
{
    if log.len() > 0 {
        assert forall|m: int| 0 <= m < log.drop_last().len() implies mends(
            #[trigger] log.drop_last()[m],
            record,
        ) by {
            assert(log.drop_last()[m] == log[m]);
        }
        lemma_mending_run(w, log.drop_last(), i, record);
        assert(mends(log[log.len() - 1], record));
    }
}

/// Repair completes: with one check registered, whose filter is the lack
/// of a record of one tag and whose policy attaches a record of that tag,
/// an entity of the check's kind that lacks the record and has not been
/// checked has the record after one cycle, is checked, and is not invalid.
pub proof fn law_repair_completes(
    c: Registration,
    w: WorldState,
    log: Seq<Command>,
    i: int,
    record: Record,
)
    requires
        world_wf(w),
        c.filter == CheckFilter::Without(record.tag),
        c.policy.repairs_by(|e: Entity| seq![Command::Insert(e, record)]),
        cycle_log(seq![c], w, 1, log),
        live(w, i),
        c.applies(w[i]->0),
        !w[i]->0.records.contains_key(record.tag),
    ensures
        live(run(w, log), i),
        run(w, log)[i]->0.records.contains_key(record.tag),
        run(w, log)[i]->0.records[record.tag] == record.value,
        run(w, log)[i]->0.checked,
        !run(w, log)[i]->0.invalid,
{
    let checks = seq![c];
    let script = |e: Entity| seq![Command::Insert(e, record)];
    let parts = choose|parts: Seq<Seq<Command>>| #[trigger]
        cycle_parts(checks, w, 1, parts) && log == parts.flatten();
    assert(checks[0].scan_log(w, w.len() as int, parts[0]));
    let sub = choose|sub: Seq<Seq<Command>>| #[trigger]
        c.scan_parts(w, w.len() as int, sub) && parts[0] == sub.flatten();
    parts.lemma_flatten_one_element();
    assert(log == sub.flatten());
    assert forall|j: int, m: int| 0 <= j < sub.len() && 0 <= m < sub[j].len() implies mends(
        #[trigger] sub[j][m],
        record,
    ) by {
        assert(c.slot_log(w, j, sub[j]));
        let e = Entity { index: j as u32 };
        if live(w, j) && c.matched(w[j]->0) {
            let tail = choose|tail: Seq<Command>| #[trigger]
                c.policy->Repair_0.emits(e, w[j]->0, tail) && sub[j] == seq![Command::Check(e)]
                    + tail;
            assert(tail == script(e));
        }
    }
    lemma_flatten_all(sub, |c: Command| mends(c, record));

    let (head, out, tail) = lemma_slot_in_cycle(checks, w, log, 0, i);
    let e = Entity { index: i as u32 };
    let fixed = choose|fixed: Seq<Command>| #[trigger]
        c.policy->Repair_0.emits(e, w[i]->0, fixed) && out == seq![Command::Check(e)] + fixed;
    assert(fixed == script(e));
    assert(out =~= seq![Command::Check(e), Command::Insert(e, record)]);
    assert forall|m: int| 0 <= m < head.len() implies mends(#[trigger] head[m], record) by {
        assert(head[m] == log[m]);
    }
    assert forall|m: int| 0 <= m < tail.len() implies mends(#[trigger] tail[m], record) by {
        assert(tail[m] == log[head.len() + out.len() + m]);
    }
    lemma_run_concat(w, head + out, tail);
    lemma_run_concat(w, head, out);
    let v1 = run(w, head);
    lemma_mending_run(w, head, i, record);
    lemma_run_wf(w, head);
    let one = seq![Command::Check(e)];
    assert(out.drop_last() =~= one);
    assert(one.drop_last() =~= Seq::<Command>::empty());
    assert(run(v1, one.drop_last()) == v1);
    assert(run(v1, one) == step(v1, Command::Check(e)));
    let v2 = run(v1, out);
    assert(v2 == step(step(v1, Command::Check(e)), Command::Insert(e, record)));
    lemma_step_wf(v1, Command::Check(e));
    lemma_step_wf(step(v1, Command::Check(e)), Command::Insert(e, record));
    lemma_mending_run(v2, tail, i, record);
}

/// The command is addressed to another entity than the one in slot `i`,
/// and removes nothing.
pub open spec fn spares(c: Command, i: int) -> bool {
    c.target().index != i && !(c is DespawnRecursive)
}

/// A log that spares an entity leaves it as it was.
pub proof fn lemma_spared(w: WorldState, log: Seq<Command>, i: int)
    requires
        live(w, i),
        forall|m: int| 0 <= m < log.len() ==> spares(#[trigger] log[m], i),
    ensures
        run(w, log).len() == w.len(),
        run(w, log)[i] == w[i],
    decreases log.len(),
{
    if log.len() > 0 {
        assert forall|m: int| 0 <= m < log.drop_last().len() implies spares(
            #[trigger] log.drop_last()[m],
            i,
        ) by {
            assert(log.drop_last()[m] == log[m]);
        }
        lemma_spared(w, log.drop_last(), i);
        assert(spares(log[log.len() - 1], i));
    }
}

/// Running one command is one step.
pub proof fn lemma_run_one(w: WorldState, c: Command)
    ensures
        run(w, seq![c]) == step(w, c),
{
    let one = seq![c];
    assert(one.drop_last() =~= Seq::<Command>::empty());
    assert(run(w, one.drop_last()) == w);
    assert(one.last() == c);
}

/// The engine offers an entity again after a re-check: with one check
/// registered, whose fixer attaches a record and asks for a re-check, an
/// entity on which the check matches ends the cycle with that record and
/// without `Checked` or `Invalid`; so the same check evaluates it in the
/// next cycle, where its fixer finds the record that the first attempt
/// left.
pub proof fn law_recheck_reoffers(
    c: Registration,
    w: WorldState,
    log: Seq<Command>,
    i: int,
    attempted: Record,
)
    requires
        world_wf(w),
        c.policy.repairs_by(
            |e: Entity| seq![Command::Insert(e, attempted), Command::CheckAgain(e)],
        ),
        cycle_log(seq![c], w, 1, log),
        live(w, i),
        c.matched(w[i]->0),
    ensures
        live(run(w, log), i),
        !run(w, log)[i]->0.checked,
        !run(w, log)[i]->0.invalid,
        run(w, log)[i]->0.records == w[i]->0.records.insert(attempted.tag, attempted.value),
{
    let checks = seq![c];
    let script = |e: Entity| seq![Command::Insert(e, attempted), Command::CheckAgain(e)];
    let parts = choose|parts: Seq<Seq<Command>>| #[trigger]
        cycle_parts(checks, w, 1, parts) && log == parts.flatten();
    assert(checks[0].scan_log(w, w.len() as int, parts[0]));
    let sub = choose|sub: Seq<Seq<Command>>| #[trigger]
        c.scan_parts(w, w.len() as int, sub) && parts[0] == sub.flatten();
    parts.lemma_flatten_one_element();
    lemma_part_in_flatten(sub, i);
    let head = sub.take(i);
    let tail = sub.skip(i + 1);
    let spare = |x: Command| spares(x, i);
    assert forall|j: int, m: int| 0 <= j < sub.len() && j != i && 0 <= m < sub[j].len() implies spares(
        #[trigger] sub[j][m],
        i,
    ) by {
        assert(c.slot_log(w, j, sub[j]));
        let e = Entity { index: j as u32 };
        if live(w, j) && c.matched(w[j]->0) {
            let fixed = choose|fixed: Seq<Command>| #[trigger]
                c.policy->Repair_0.emits(e, w[j]->0, fixed) && sub[j] == seq![Command::Check(e)]
                    + fixed;
            assert(fixed == script(e));
        }
    }
    assert forall|j: int, m: int| 0 <= j < head.len() && 0 <= m < head[j].len() implies spare(
        #[trigger] head[j][m],
    ) by {
        assert(head[j] == sub[j]);
    }
    assert forall|j: int, m: int| 0 <= j < tail.len() && 0 <= m < tail[j].len() implies spare(
        #[trigger] tail[j][m],
    ) by {
        assert(tail[j] == sub[j + i + 1]);
    }
    lemma_flatten_all(head, spare);
    lemma_flatten_all(tail, spare);

    let e = Entity { index: i as u32 };
    assert(c.slot_log(w, i, sub[i]));
    let fixed = choose|fixed: Seq<Command>| #[trigger]
        c.policy->Repair_0.emits(e, w[i]->0, fixed) && sub[i] == seq![Command::Check(e)] + fixed;
    assert(fixed == script(e));
    let c1 = Command::Check(e);
    let c2 = Command::Insert(e, attempted);
    let c3 = Command::CheckAgain(e);
    assert(sub[i] =~= seq![c1] + seq![c2] + seq![c3]);

    let v1 = run(w, head.flatten());
    lemma_spared(w, head.flatten(), i);
    lemma_run_concat(w, head.flatten() + sub[i], tail.flatten());
    lemma_run_concat(w, head.flatten(), sub[i]);
    lemma_run_concat(v1, seq![c1] + seq![c2], seq![c3]);
    lemma_run_concat(v1, seq![c1], seq![c2]);
    lemma_run_one(v1, c1);
    lemma_run_one(step(v1, c1), c2);
    lemma_run_one(step(step(v1, c1), c2), c3);
    let v2 = run(v1, sub[i]);
    assert(v2 == step(step(step(v1, c1), c2), c3));
    assert(live(v2, i));
    lemma_spared(v2, tail.flatten(), i);
}

} // verus!
