use vstd::prelude::*;

use vstd::set_lib::{set_int_range, lemma_int_range, lemma_subset_equality};
use crate::state::Participant;
use crate::world::World;

verus! {

/// The draw slots held, within the record sequence `s`, by the participants
/// of vault `a`'s round `round`.
pub open spec fn round_ids(s: Seq<Participant>, a: u64, round: u64) -> Set<int>
    decreases s.len(),
{
    if s.len() == 0 {
        Set::empty()
    } else {
        let rest = round_ids(s.drop_last(), a, round);
        if s.last().vault == a && s.last().lottery_id == round {
            rest.insert(s.last().id as int)
        } else {
            rest
        }
    }
}

/// How many records of `s` belong to vault `a`'s round `round`.
pub open spec fn round_member_count(s: Seq<Participant>, a: u64, round: u64) -> nat
    decreases s.len(),
{
    if s.len() == 0 {
        0
    } else {
        round_member_count(s.drop_last(), a, round) + if s.last().vault == a
            && s.last().lottery_id == round {
            1nat
        } else {
            0nat
        }
    }
}

/// Some record of vault `a`'s round in `s` carries the slot `id`.
pub open spec fn round_has_id(s: Seq<Participant>, a: u64, round: u64, id: int) -> bool {
    exists|k: int|
        0 <= k < s.len() && (#[trigger] s[k]).vault == a && s[k].lottery_id == round && s[k].id
            == id
}

/// No two records of `s` in the same vault round share a draw slot.
pub open spec fn ids_distinct_in(s: Seq<Participant>) -> bool {
    forall|i: int, j: int|
        #![trigger s[i], s[j]]
        0 <= i < s.len() && 0 <= j < s.len() && i != j && s[i].vault == s[j].vault
            && s[i].lottery_id == s[j].lottery_id ==> s[i].id != s[j].id
}

/// A slot is in the round's id set exactly when some record of the round
/// carries it.
pub proof fn lemma_round_ids_membership(s: Seq<Participant>, a: u64, round: u64)
    ensures
        forall|id: int|
            #[trigger] round_ids(s, a, round).contains(id) <==> round_has_id(s, a, round, id),
    decreases s.len(),
{
    if s.len() == 0 {
    } else {
        let t = s.drop_last();
        lemma_round_ids_membership(t, a, round);
        assert forall|id: int|
            #[trigger] round_ids(s, a, round).contains(id) <==> round_has_id(
            s,
            a,
            round,
            id,
        ) by {
            let last = s.len() - 1;
            if round_ids(s, a, round).contains(id) {
                if s[last].vault == a && s[last].lottery_id == round && s[last].id == id {
                    assert(round_has_id(s, a, round, id));
                } else {
                    assert(round_ids(t, a, round).contains(id));
                    let k = choose|k: int|
                        0 <= k < t.len() && (#[trigger] t[k]).vault == a && t[k].lottery_id == round
                            && t[k].id == id;
                    assert(s[k] == t[k]);
                    assert(round_has_id(s, a, round, id));
                }
            }
            if round_has_id(s, a, round, id) {
                let k = choose|k: int|
                    0 <= k < s.len() && (#[trigger] s[k]).vault == a && s[k].lottery_id == round
                        && s[k].id == id;
                if k == last {
                    assert(round_ids(s, a, round).contains(id));
                } else {
                    assert(t[k] == s[k]);
                    assert(round_has_id(t, a, round, id));
                    assert(round_ids(t, a, round).contains(id));
                    assert(round_ids(s, a, round).contains(id));
                }
            }
        }
    }
}

/// With no slot shared inside a round, the round's id set is exactly as
/// large as the round's membership.
pub proof fn lemma_round_ids_card(s: Seq<Participant>, a: u64, round: u64)
    requires
        ids_distinct_in(s),
    ensures
        round_ids(s, a, round).finite(),
        round_ids(s, a, round).len() == round_member_count(s, a, round),
    decreases s.len(),
{
    if s.len() == 0 {
    } else {
        let t = s.drop_last();
        let last = s.len() - 1;
        assert forall|i: int, j: int|
            #![trigger t[i], t[j]]
            0 <= i < t.len() && 0 <= j < t.len() && i != j && t[i].vault == t[j].vault
                && t[i].lottery_id == t[j].lottery_id implies t[i].id != t[j].id by {
            assert(t[i] == s[i] && t[j] == s[j]);
        }
        lemma_round_ids_card(t, a, round);
        lemma_round_ids_membership(t, a, round);
        if s[last].vault == a && s[last].lottery_id == round {
            // The last record's slot is fresh: a second record of the same
            // round with the same slot would break distinctness.
            if round_ids(t, a, round).contains(s[last].id as int) {
                let k = choose|k: int|
                    0 <= k < t.len() && (#[trigger] t[k]).vault == a && t[k].lottery_id == round
                        && t[k].id == s[last].id;
                assert(s[k] == t[k]);
                assert(false);
            }
        }
    }
}

/// When every record of the round keeps its slot below `n`, the round's id
/// set lies inside `[0, n)`.
pub proof fn lemma_round_ids_bound(s: Seq<Participant>, a: u64, round: u64, n: int)
    requires
        forall|k: int|
            0 <= k < s.len() && (#[trigger] s[k]).vault == a && s[k].lottery_id == round ==> (
            s[k].id as int) < n,
    ensures
        round_ids(s, a, round).subset_of(set_int_range(0, n)),
{
    lemma_round_ids_membership(s, a, round);
    assert forall|id: int| round_ids(s, a, round).contains(id) implies set_int_range(
        0,
        n,
    ).contains(id) by {
        let k = choose|k: int|
            0 <= k < s.len() && (#[trigger] s[k]).vault == a && s[k].lottery_id == round && s[k].id
                == id;
        assert(0 <= id < n);
    }
}

/// The deposits into a vault assign the contiguous draw slots
/// `{0, …, participant_count − 1}`, with no gap and no duplicate: for any
/// round from which no participant record has been closed — its live records
/// are exactly as many as `participant_count` — the set of live slots is
/// exactly the integer range `[0, participant_count)`.
pub proof fn lemma_participant_ids_complete(w: World, a: u64)
    requires
        w.wf(),
        w.has_vault(a),
        round_member_count(w.participants@, a, w.vault_of(a).lottery_id) == w.vault_of(
            a,
        ).participant_count,
    ensures
        round_ids(w.participants@, a, w.vault_of(a).lottery_id) == set_int_range(
            0,
            w.vault_of(a).participant_count as int,
        ),
{
    let s = w.participants@;
    let round = w.vault_of(a).lottery_id;
    let n = w.vault_of(a).participant_count as int;
    assert forall|k: int|
        0 <= k < s.len() && (#[trigger] s[k]).vault == a && s[k].lottery_id == round implies (
    s[k].id as int) < n by {
        assert(w.participant_valid(s[k]));
    }
    lemma_round_ids_bound(s, a, round, n);
    assert forall|i: int, j: int|
        #![trigger s[i], s[j]]
        0 <= i < s.len() && 0 <= j < s.len() && i != j && s[i].vault == s[j].vault
            && s[i].lottery_id == s[j].lottery_id implies s[i].id != s[j].id by {
        assert(w.participant_ids_distinct());
    }
    lemma_round_ids_card(s, a, round);
    lemma_int_range(0, n);
    lemma_subset_equality(round_ids(s, a, round), set_int_range(0, n));
    assert(round_ids(s, a, round) =~= set_int_range(0, n));
}

} // verus!
