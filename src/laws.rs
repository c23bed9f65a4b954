use vstd::prelude::*;

use crate::model::{
    after_register, after_update, index_of, names_unique, register_outcome, registered,
    update_outcome, Position, Record, RegistryError,
};

verus! {

/// One mutating call on the registry, as a mathematical value.
pub enum Op {
    Register { name: Seq<char>, secret: u64 },
    Move { name: Seq<char>, position: Position, secret: u64 },
}

impl Op {
    /// The player the call addresses.
    pub open spec fn name(self) -> Seq<char> {
        match self {
            Op::Register { name, .. } => name,
            Op::Move { name, .. } => name,
        }
    }

    /// The position the player has after the call, when it succeeds.
    pub open spec fn placed_at(self) -> Position {
        match self {
            Op::Register { .. } => Position::spec_origin(),
            Op::Move { position, .. } => position,
        }
    }

    /// Whether the call succeeds on the records `s`.
    pub open spec fn succeeds(self, s: Seq<Record>) -> bool {
        match self {
            Op::Register { name, .. } => register_outcome(s, name) is Ok,
            Op::Move { name, secret, .. } => update_outcome(s, name, secret) is Ok,
        }
    }

    /// The records after the call.
    pub open spec fn apply(self, s: Seq<Record>) -> Seq<Record> {
        match self {
            Op::Register { name, secret } => after_register(s, name, secret),
            Op::Move { name, position, secret } => after_update(s, name, position, secret),
        }
    }
}

/// The records after the calls `ops`, one after the other, starting from `s`.
pub open spec fn run(s: Seq<Record>, ops: Seq<Op>) -> Seq<Record>
    decreases ops.len(),
{
    if ops.len() == 0 {
        s
    } else {
        ops.last().apply(run(s, ops.drop_last()))
    }
}

/// How many of the calls `ops`, run from `s`, are registrations that succeed.
pub open spec fn registrations(s: Seq<Record>, ops: Seq<Op>) -> nat
    decreases ops.len(),
{
    if ops.len() == 0 {
        0
    } else {
        registrations(s, ops.drop_last()) + if ops.last() is Register && ops.last().succeeds(
            run(s, ops.drop_last()),
        ) {
            1nat
        } else {
            0nat
        }
    }
}

/// The record of `name`, where it is registered.
pub open spec fn record_of(s: Seq<Record>, name: Seq<char>) -> Record {
    s[index_of(s, name)]
}

proof fn lemma_index_of(s: Seq<Record>, i: int)
    requires
        names_unique(s),
        0 <= i < s.len(),
    ensures
        registered(s, s[i].name),
        index_of(s, s[i].name) == i,
{
    let k = index_of(s, s[i].name);
    assert(s[k].name == s[i].name);
}

proof fn lemma_apply_unique(s: Seq<Record>, op: Op)
    requires
        names_unique(s),
    ensures
        names_unique(op.apply(s)),
        op.apply(s).len() == s.len() + if op is Register && op.succeeds(s) {
            1int
        } else {
            0int
        },
        forall|i: int| 0 <= i < s.len() ==> #[trigger] op.apply(s)[i].name == s[i].name,
{
    let t = op.apply(s);
    match op {
        Op::Register { name, secret } => {
            if !registered(s, name) {
                assert forall|i: int, j: int|
                    0 <= i < t.len() && 0 <= j < t.len() && #[trigger] t[i].name
                        == #[trigger] t[j].name implies i == j by {
                    if i < s.len() && j < s.len() {
                        assert(s[i].name == s[j].name);
                    } else if i < s.len() {
                        assert(s[i].name == name);
                    } else if j < s.len() {
                        assert(s[j].name == name);
                    }
                }
            }
        },
        Op::Move { name, position, secret } => {
            if update_outcome(s, name, secret) is Ok {
                assert forall|i: int, j: int|
                    0 <= i < t.len() && 0 <= j < t.len() && #[trigger] t[i].name
                        == #[trigger] t[j].name implies i == j by {
                    assert(s[i].name == t[i].name);
                    assert(s[j].name == t[j].name);
                }
            }
        },
    }
}

/// A call leaves the record of every player it does not change as it was.
proof fn lemma_apply_keeps(s: Seq<Record>, op: Op, name: Seq<char>)
    requires
        names_unique(s),
        registered(s, name),
        !(op.name() == name && op.succeeds(s)),
    ensures
        registered(op.apply(s), name),
        record_of(op.apply(s), name) == record_of(s, name),
{
    let i = index_of(s, name);
    let t = op.apply(s);
    lemma_apply_unique(s, op);
    if op.succeeds(s) {
        match op {
            Op::Move { name: m, position, secret } => {
                let j = index_of(s, m);
                assert(i != j);
            },
            _ => {},
        }
    }
    assert(t[i] == s[i]);
    lemma_index_of(t, i);
}

/// A call that succeeds leaves its player at the call's position.
proof fn lemma_apply_places(s: Seq<Record>, op: Op)
    requires
        names_unique(s),
        op.succeeds(s),
    ensures
        registered(op.apply(s), op.name()),
        record_of(op.apply(s), op.name()).position == op.placed_at(),
{
    let t = op.apply(s);
    lemma_apply_unique(s, op);
    match op {
        Op::Register { name, secret } => {
            lemma_index_of(t, s.len() as int);
        },
        Op::Move { name, position, secret } => {
            let i = index_of(s, name);
            lemma_index_of(t, i);
        },
    }
}

/// Calls never let two players share a name, and each successful
/// registration, and nothing else, adds exactly one player: after `n`
/// successful registrations on an empty registry there are exactly `n`
/// players, all with distinct names.
pub proof fn lemma_run_counts(s: Seq<Record>, ops: Seq<Op>)
    requires
        names_unique(s),
    ensures
        names_unique(run(s, ops)),
        run(s, ops).len() == s.len() + registrations(s, ops),
    decreases ops.len(),
{
    if ops.len() > 0 {
        lemma_run_counts(s, ops.drop_last());
        lemma_apply_unique(run(s, ops.drop_last()), ops.last());
    }
}

/// After any sequence of calls, each player's position is the one set by
/// the last call on that player that succeeded: the origin for its
/// registration, or the target of its latest successful move.
pub proof fn lemma_latest_position(s: Seq<Record>, ops: Seq<Op>, name: Seq<char>, k: int)
    requires
        names_unique(s),
        0 <= k < ops.len(),
        ops[k].name() == name,
        ops[k].succeeds(run(s, ops.take(k))),
        forall|j: int|
            k < j < ops.len() && #[trigger] ops[j].name() == name ==> !ops[j].succeeds(
                run(s, ops.take(j)),
            ),
    ensures
        registered(run(s, ops), name),
        record_of(run(s, ops), name).position == ops[k].placed_at(),
    decreases ops.len(),
{
    let n = ops.len() - 1;
    let prev = ops.drop_last();
    assert(ops.take(n) =~= prev);
    lemma_run_counts(s, prev);
    if k == n {
        lemma_apply_places(run(s, prev), ops[k]);
    } else {
        assert forall|j: int| 0 <= j <= n implies #[trigger] prev.take(j) == ops.take(j) by {
            assert(prev.take(j) =~= ops.take(j));
        }
        assert(prev.take(k) == ops.take(k));
        assert forall|j: int|
            k < j < prev.len() && #[trigger] prev[j].name() == name implies !prev[j].succeeds(
            run(s, prev.take(j)),
        ) by {
            assert(prev.take(j) == ops.take(j));
            assert(ops[j].name() == name);
        }
        lemma_latest_position(s, prev, name, k);
        if ops[n].name() == name {
            assert(!ops[n].succeeds(run(s, ops.take(n))));
        }
        lemma_apply_keeps(run(s, prev), ops[n], name);
    }
}

/// Registering the same name twice: the second call is refused with
/// `NameConflict` and changes nothing, and exactly one player carries the
/// name afterwards.
pub proof fn lemma_register_twice(s: Seq<Record>, name: Seq<char>, first: u64, second: u64)
    requires
        names_unique(s),
    ensures
        register_outcome(after_register(s, name, first), name) == Err::<(), RegistryError>(
            RegistryError::NameConflict,
        ),
        after_register(after_register(s, name, first), name, second) == after_register(
            s,
            name,
            first,
        ),
        names_unique(after_register(s, name, first)),
        registered(after_register(s, name, first), name),
        forall|i: int|
            0 <= i < after_register(s, name, first).len() && #[trigger] after_register(
                s,
                name,
                first,
            )[i].name == name ==> i == index_of(after_register(s, name, first), name),
{
    let op = Op::Register { name, secret: first };
    lemma_apply_unique(s, op);
    let t = after_register(s, name, first);
    if !registered(s, name) {
        assert(t[s.len() as int].name == name);
    }
    let k = index_of(t, name);
    assert(t[k].name == name);
}

/// A name that no call registered stays unknown: looking it up gives
/// `NotFound`.
pub proof fn lemma_never_registered(s: Seq<Record>, ops: Seq<Op>, name: Seq<char>)
    requires
        names_unique(s),
        !registered(s, name),
        forall|j: int| 0 <= j < ops.len() ==> #[trigger] ops[j] is Move || ops[j].name() != name,
    ensures
        !registered(run(s, ops), name),
    decreases ops.len(),
{
    if ops.len() > 0 {
        let prev = ops.drop_last();
        assert forall|j: int| 0 <= j < prev.len() implies #[trigger] prev[j] is Move
            || prev[j].name() != name by {
            assert(prev[j] == ops[j]);
        }
        lemma_never_registered(s, prev, name);
        let p = run(s, prev);
        lemma_run_counts(s, prev);
        lemma_apply_unique(p, ops.last());
        let t = ops.last().apply(p);
        if registered(t, name) {
            let i = index_of(t, name);
            if i < p.len() {
                assert(p[i].name == name);
            } else {
                assert(ops.last() is Register);
            }
        }
    }
}

/// A move with a credential other than the one issued is refused with
/// `Unauthorized` and changes nothing.
pub proof fn lemma_wrong_credential(s: Seq<Record>, name: Seq<char>, position: Position, secret: u64)
    requires
        names_unique(s),
        registered(s, name),
        record_of(s, name).secret != secret,
    ensures
        update_outcome(s, name, secret) == Err::<(), RegistryError>(RegistryError::Unauthorized),
        after_update(s, name, position, secret) == s,
{
}

/// A move with the issued credential changes that player's position and
/// nothing else: no other player, and neither its name nor its credential.
pub proof fn lemma_move_changes_only_target(
    s: Seq<Record>,
    name: Seq<char>,
    position: Position,
    secret: u64,
)
    requires
        names_unique(s),
        registered(s, name),
        record_of(s, name).secret == secret,
    ensures
        update_outcome(s, name, secret) is Ok,
        after_update(s, name, position, secret).len() == s.len(),
        names_unique(after_update(s, name, position, secret)),
        record_of(after_update(s, name, position, secret), name) == (Record {
            position,
            ..record_of(s, name)
        }),
        forall|j: int|
            0 <= j < s.len() && s[j].name != name ==> #[trigger] after_update(
                s,
                name,
                position,
                secret,
            )[j] == s[j],
{
    let op = Op::Move { name, position, secret };
    lemma_apply_unique(s, op);
    lemma_index_of(after_update(s, name, position, secret), index_of(s, name));
}

/// Once registered, a name stays registered, whatever calls follow.
proof fn lemma_stays_registered(s: Seq<Record>, ops: Seq<Op>, name: Seq<char>)
    requires
        names_unique(s),
        registered(s, name),
    ensures
        registered(run(s, ops), name),
    decreases ops.len(),
{
    if ops.len() > 0 {
        let prev = ops.drop_last();
        lemma_stays_registered(s, prev, name);
        lemma_run_counts(s, prev);
        let p = run(s, prev);
        if ops.last().name() == name && ops.last().succeeds(p) {
            lemma_apply_places(p, ops.last());
        } else {
            lemma_apply_keeps(p, ops.last(), name);
        }
    }
}

/// Any number of registrations of one free name, in whatever order the
/// callers are served: the first succeeds, every later one is refused with
/// `NameConflict`, and exactly one succeeds in all.
pub proof fn lemma_same_name_registers_once(s: Seq<Record>, ops: Seq<Op>, name: Seq<char>)
    requires
        names_unique(s),
        !registered(s, name),
        ops.len() >= 1,
        forall|j: int| 0 <= j < ops.len() ==> #[trigger] ops[j] is Register && ops[j].name() == name,
    ensures
        registrations(s, ops) == 1,
        register_outcome(s, name) is Ok,
        forall|j: int|
            1 <= j <= ops.len() ==> #[trigger] register_outcome(run(s, ops.take(j)), name) == Err::<
                (),
                RegistryError,
            >(RegistryError::NameConflict),
    decreases ops.len(),
{
    let first = ops.take(1);
    assert(first.drop_last() =~= Seq::<Op>::empty());
    lemma_apply_places(s, ops[0]);
    assert forall|j: int| 1 <= j <= ops.len() implies #[trigger] register_outcome(
        run(s, ops.take(j)),
        name,
    ) == Err::<(), RegistryError>(RegistryError::NameConflict) by {
        let later = ops.subrange(1, j);
        assert(run(s, ops.take(j)) == run(run(s, first), later)) by {
            lemma_run_append(s, first, later);
            assert(first + later =~= ops.take(j));
        }
        lemma_run_counts(s, first);
        lemma_stays_registered(run(s, first), later, name);
    }
    if ops.len() > 1 {
        let prev = ops.drop_last();
        assert forall|j: int| 0 <= j < prev.len() implies #[trigger] prev[j] is Register
            && prev[j].name() == name by {
            assert(prev[j] == ops[j]);
        }
        lemma_same_name_registers_once(s, prev, name);
        assert(ops.take(prev.len() as int) =~= prev);
        assert(register_outcome(run(s, ops.take(prev.len() as int)), name) is Err);
        assert(ops[prev.len() as int] is Register && ops[prev.len() as int].name() == name);
        assert(!ops.last().succeeds(run(s, prev)));
    } else {
        assert(ops.drop_last() =~= Seq::<Op>::empty());
        assert(ops[0] is Register && ops[0].name() == name);
        assert(ops.last().succeeds(run(s, ops.drop_last())));
        assert(registrations(s, ops.drop_last()) == 0);
    }
}

/// Running two sequences of calls one after the other is running their
/// concatenation.
proof fn lemma_run_append(s: Seq<Record>, a: Seq<Op>, b: Seq<Op>)
    ensures
        run(s, a + b) == run(run(s, a), b),
    decreases b.len(),
{
    if b.len() == 0 {
        assert(a + b =~= a);
    } else {
        assert((a + b).drop_last() =~= a + b.drop_last());
        lemma_run_append(s, a, b.drop_last());
    }
}

} // verus!
