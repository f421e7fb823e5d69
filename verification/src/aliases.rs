//! Library file names that a build system spells differently by platform.
//!
//! An alias is a pair of file names, the one that a build may have installed and
//! the one that a linker looks for.

use vstd::prelude::*;

use crate::text::chars_of;
use crate::words::{holds, texts};

verus! {

/// `a` comes before `b` in the order of their characters.
pub open spec fn before(a: Seq<char>, b: Seq<char>) -> bool
    decreases a.len(),
{
    b.len() > 0 && (a.len() == 0 || a[0] < b[0] || (a[0] == b[0] && before(
        a.drop_first(),
        b.drop_first(),
    )))
}

/// The texts of `list` ascend, and none occurs twice.
pub open spec fn ascending(list: Seq<Seq<char>>) -> bool {
    forall|i: int, j: int| 0 <= i < j < list.len() ==> before(#[trigger] list[i], #[trigger] list[j])
}

/// The views of a list of pairs of strings.
pub open spec fn pairs(list: Seq<(String, String)>) -> Seq<(Seq<char>, Seq<char>)> {
    list.map_values(|pair: (String, String)| (pair.0@, pair.1@))
}

/// The file that `alias` makes from is there, and the one that it makes is not.
pub open spec fn applies(alias: (Seq<char>, Seq<char>), present: Set<Seq<char>>) -> bool {
    present.contains(alias.0) && !present.contains(alias.1)
}

/// The files that are there after the first `count` aliases of one pass, taken in
/// order.
pub open spec fn after_pass(
    aliases: Seq<(Seq<char>, Seq<char>)>,
    present: Set<Seq<char>>,
    count: nat,
) -> Set<Seq<char>>
    decreases count,
{
    if count == 0 {
        present
    } else {
        let sofar = after_pass(aliases, present, (count - 1) as nat);
        if applies(aliases[count - 1], sofar) {
            sofar.insert(aliases[count - 1].1)
        } else {
            sofar
        }
    }
}

/// The aliases among the first `count` that apply when their turn comes in one pass.
pub open spec fn pass_copies(
    aliases: Seq<(Seq<char>, Seq<char>)>,
    present: Set<Seq<char>>,
    count: nat,
) -> Seq<(Seq<char>, Seq<char>)>
    decreases count,
{
    if count == 0 {
        seq![]
    } else {
        let sofar = pass_copies(aliases, present, (count - 1) as nat);
        if applies(aliases[count - 1], after_pass(aliases, present, (count - 1) as nat)) {
            sofar.push(aliases[count - 1])
        } else {
            sofar
        }
    }
}

/// The files that are there after `rounds` passes over all aliases.
pub open spec fn after_rounds(
    aliases: Seq<(Seq<char>, Seq<char>)>,
    present: Set<Seq<char>>,
    rounds: nat,
) -> Set<Seq<char>>
    decreases rounds,
{
    if rounds == 0 {
        present
    } else {
        after_pass(
            aliases,
            after_rounds(aliases, present, (rounds - 1) as nat),
            aliases.len(),
        )
    }
}

/// The copies that `rounds` passes over all aliases make, in order.
pub open spec fn round_copies(
    aliases: Seq<(Seq<char>, Seq<char>)>,
    present: Set<Seq<char>>,
    rounds: nat,
) -> Seq<(Seq<char>, Seq<char>)>
    decreases rounds,
{
    if rounds == 0 {
        seq![]
    } else {
        round_copies(aliases, present, (rounds - 1) as nat) + pass_copies(
            aliases,
            after_rounds(aliases, present, (rounds - 1) as nat),
            aliases.len(),
        )
    }
}

/// The files that are there when no alias applies any more. A pass that makes a file
/// satisfies an alias for good, so there are no more such passes than aliases.
pub open spec fn present_after(
    aliases: Seq<(Seq<char>, Seq<char>)>,
    present: Set<Seq<char>>,
) -> Set<Seq<char>> {
    after_rounds(aliases, present, aliases.len())
}

/// The copies that are made until no alias applies any more, in order.
pub open spec fn copied(
    aliases: Seq<(Seq<char>, Seq<char>)>,
    present: Set<Seq<char>>,
) -> Seq<(Seq<char>, Seq<char>)> {
    round_copies(aliases, present, aliases.len())
}

/// No alias applies.
pub open spec fn settled(
    aliases: Seq<(Seq<char>, Seq<char>)>,
    present: Set<Seq<char>>,
) -> bool {
    forall|k: int| 0 <= k < aliases.len() ==> !applies(#[trigger] aliases[k], present)
}

/// The files that are there once `copies` have been made.
pub open spec fn carried_out(
    copies: Seq<(Seq<char>, Seq<char>)>,
    present: Set<Seq<char>>,
) -> Set<Seq<char>>
    decreases copies.len(),
{
    if copies.len() == 0 {
        present
    } else {
        carried_out(copies.drop_last(), present).insert(copies.last().1)
    }
}

/// `name` is one that an alias makes, and it is not there after all aliases.
pub open spec fn is_missing(
    aliases: Seq<(Seq<char>, Seq<char>)>,
    present: Set<Seq<char>>,
    name: Seq<char>,
) -> bool {
    &&& !present_after(aliases, present).contains(name)
    &&& exists|k: int| 0 <= k < aliases.len() && (#[trigger] aliases[k]).1 == name
}

/// What aliasing does in one directory.
#[derive(Debug)]
pub struct AliasPlan {
    /// Pairs of a file and the name that it is copied to, in order.
    pub copies: Vec<(String, String)>,
    /// Names that are not there afterwards, ascending, each once.
    pub missing: Vec<String>,
}

/// Whether `a` comes before `b` in the order of their characters.
pub fn is_before(a: &str, b: &str) -> (result: bool)
    ensures
        result == before(a@, b@),
{
    let left: Vec<char> = chars_of(a);
    let right: Vec<char> = chars_of(b);
    let mut i: usize = 0;
    assert(a@.skip(0) =~= a@ && b@.skip(0) =~= b@);
    while i < left.len() && i < right.len()
        invariant
            left@ == a@,
            right@ == b@,
            i <= a@.len(),
            i <= b@.len(),
            before(a@, b@) == before(a@.skip(i as int), b@.skip(i as int)),
        decreases a@.len() - i,
    {
        assert(a@.skip(i as int).drop_first() =~= a@.skip(i + 1));
        assert(b@.skip(i as int).drop_first() =~= b@.skip(i + 1));
        if left[i] < right[i] {
            return true;
        }
        if right[i] < left[i] {
            return false;
        }
        i = i + 1;
    }
    i < right.len()
}

proof fn lemma_before_irreflexive(a: Seq<char>)
    ensures
        !before(a, a),
    decreases a.len(),
{
    if a.len() > 0 {
        lemma_before_irreflexive(a.drop_first());
    }
}

proof fn lemma_before_transitive(a: Seq<char>, b: Seq<char>, c: Seq<char>)
    requires
        before(a, b),
        before(b, c),
    ensures
        before(a, c),
    decreases a.len(),
{
    if a.len() > 0 && a[0] == b[0] && b[0] == c[0] {
        lemma_before_transitive(a.drop_first(), b.drop_first(), c.drop_first());
    }
}

proof fn lemma_before_total(a: Seq<char>, b: Seq<char>)
    requires
        !before(a, b),
        !before(b, a),
    ensures
        a == b,
    decreases a.len(),
{
    if a.len() > 0 && b.len() > 0 {
        lemma_before_total(a.drop_first(), b.drop_first());
        assert(a =~= seq![a[0]] + a.drop_first());
        assert(b =~= seq![b[0]] + b.drop_first());
    } else {
        assert(a =~= b);
    }
}

/// Puts `name` in its place in an ascending list that may already hold it.
fn insert_once(list: &mut Vec<String>, name: &String)
    requires
        ascending(texts(old(list)@)),
    ensures
        ascending(texts(final(list)@)),
        forall|text: Seq<char>| #[trigger]
            texts(final(list)@).contains(text) <==> (texts(old(list)@).contains(text) || text
                == name@),
{
    let ghost old_texts = texts(list@);
    let mut at: usize = 0;
    while at < list.len() && is_before(list[at].as_str(), name.as_str())
        invariant
            at <= list@.len(),
            old_texts == texts(list@),
            forall|i: int| 0 <= i < at ==> before(#[trigger] old_texts[i], name@),
        decreases list@.len() - at,
    {
        at = at + 1;
    }
    if at < list.len() && !is_before(name.as_str(), list[at].as_str()) {
        proof {
            lemma_before_total(old_texts[at as int], name@);
            assert(texts(list@)[at as int] == name@);
        }
        return;
    }
    let ghost old_list = list@;
    list.insert(at, name.clone());
    proof {
        let new_texts = texts(list@);
        assert(new_texts =~= old_texts.insert(at as int, name@));
        assert forall|i: int, j: int| 0 <= i < j < new_texts.len() implies before(
            #[trigger] new_texts[i],
            #[trigger] new_texts[j],
        ) by {
            if i == at && j > at + 1 {
                lemma_before_transitive(name@, old_texts[at as int], old_texts[j - 1]);
            }
        }
        assert forall|text: Seq<char>| #[trigger] new_texts.contains(text) <==> (
        old_texts.contains(text) || text == name@) by {
            if new_texts.contains(text) {
                let i = choose|i: int| 0 <= i < new_texts.len() && new_texts[i] == text;
                if i < at {
                    assert(old_texts[i] == text);
                } else if i > at {
                    assert(old_texts[i - 1] == text);
                }
            }
            if old_texts.contains(text) {
                let i = choose|i: int| 0 <= i < old_texts.len() && old_texts[i] == text;
                if i < at {
                    assert(new_texts[i] == text);
                } else {
                    assert(new_texts[i + 1] == text);
                }
            }
            assert(new_texts[at as int] == name@);
        }
    }
}

/// The same list of pairs once more.
pub fn clone_pairs(list: &Vec<(String, String)>) -> (copy: Vec<(String, String)>)
    ensures
        pairs(copy@) == pairs(list@),
{
    let mut copy: Vec<(String, String)> = Vec::new();
    let mut i: usize = 0;
    while i < list.len()
        invariant
            i <= list@.len(),
            pairs(copy@) == pairs(list@).take(i as int),
        decreases list@.len() - i,
    {
        let ghost sofar = pairs(copy@);
        copy.push((list[i].0.clone(), list[i].1.clone()));
        assert(pairs(copy@) =~= sofar.push(
            (list@[i as int].0@, list@[i as int].1@),
        ));
        assert(pairs(copy@) =~= pairs(list@).take(i + 1));
        i = i + 1;
    }
    assert(pairs(copy@) =~= pairs(list@));
    copy
}

/// Goes over all aliases once, in order. Adds to `here` the names that are made, and to
/// `copies` what is copied to make them.
fn run_pass(
    aliases: &Vec<(String, String)>,
    here: &mut Vec<String>,
    copies: &mut Vec<(String, String)>,
)
    ensures
        texts(final(here)@).to_set() == after_pass(
            pairs(aliases@),
            texts(old(here)@).to_set(),
            aliases@.len(),
        ),
        pairs(final(copies)@) == pairs(old(copies)@) + pass_copies(
            pairs(aliases@),
            texts(old(here)@).to_set(),
            aliases@.len(),
        ),
{
    let ghost table = pairs(aliases@);
    let ghost initial = texts(here@).to_set();
    let ghost earlier = pairs(copies@);
    assert(earlier + pass_copies(table, initial, 0) =~= earlier);
    let mut k: usize = 0;
    while k < aliases.len()
        invariant
            k <= aliases@.len(),
            table == pairs(aliases@),
            texts(here@).to_set() == after_pass(table, initial, k as nat),
            pairs(copies@) == earlier + pass_copies(table, initial, k as nat),
        decreases aliases@.len() - k,
    {
        let ghost old_here = texts(here@);
        let ghost old_copies = pairs(copies@);
        assert(table[k as int] == (aliases@[k as int].0@, aliases@[k as int].1@));
        if holds(here, &aliases[k].0) && !holds(here, &aliases[k].1) {
            here.push(aliases[k].1.clone());
            copies.push((aliases[k].0.clone(), aliases[k].1.clone()));
            proof {
                let made = aliases@[k as int].1@;
                assert(texts(here@) =~= old_here.push(made));
                assert(pairs(copies@) =~= old_copies.push(table[k as int]));
                lemma_push_to_set(old_here, made);
                assert(pairs(copies@) =~= earlier + pass_copies(table, initial, (k + 1) as nat));
            }
        }
        k = k + 1;
    }
}

/// What to copy in a directory so that every alias's second name is there where
/// its first name is, and which second names are then still missing. `present`
/// holds those of the aliases' names that are files in the directory.
///
/// The aliases are gone over in order, and again for as long as a pass makes a file
/// that an earlier alias may copy from.
pub fn apply_lib_aliases(aliases: &Vec<(String, String)>, present: &Vec<String>) -> (plan:
    AliasPlan)
    ensures
        pairs(plan.copies@) == copied(pairs(aliases@), texts(present@).to_set()),
        ascending(texts(plan.missing@)),
        forall|name: Seq<char>| #[trigger]
            texts(plan.missing@).contains(name) <==> is_missing(
                pairs(aliases@),
                texts(present@).to_set(),
                name,
            ),
{
    let ghost table = pairs(aliases@);
    let ghost initial = texts(present@).to_set();
    let mut here: Vec<String> = Vec::new();
    let mut i: usize = 0;
    while i < present.len()
        invariant
            i <= present@.len(),
            texts(here@) == texts(present@).take(i as int),
        decreases present@.len() - i,
    {
        let ghost sofar = texts(here@);
        here.push(present[i].clone());
        assert(texts(here@) =~= sofar.push(present@[i as int]@));
        assert(texts(here@) =~= texts(present@).take(i + 1));
        i = i + 1;
    }
    assert(texts(here@) =~= texts(present@));
    let mut copies: Vec<(String, String)> = Vec::new();
    assert(pairs(copies@) =~= seq![]);
    let mut round: usize = 0;
    let mut over: bool = false;
    while round < aliases.len() && !over
        invariant
            round <= aliases@.len(),
            table == pairs(aliases@),
            texts(here@).to_set() == after_rounds(table, initial, round as nat),
            pairs(copies@) == round_copies(table, initial, round as nat),
            over ==> settled(table, texts(here@).to_set()),
        decreases aliases@.len() - round,
    {
        let ghost before_pass = texts(here@).to_set();
        let sofar: usize = copies.len();
        let ghost old_copies = copies@;
        run_pass(aliases, &mut here, &mut copies);
        over = copies.len() == sofar;
        proof {
            let made = pass_copies(table, before_pass, table.len());
            assert(pairs(copies@).len() == pairs(old_copies).len() + made.len());
            if over {
                lemma_idle_pass(table, before_pass, table.len());
            }
        }
        round = round + 1;
    }
    proof {
        if over {
            lemma_settled_rounds(table, initial, round as nat, table.len());
        }
    }
    let mut missing: Vec<String> = Vec::new();
    let mut m: usize = 0;
    while m < aliases.len()
        invariant
            m <= aliases@.len(),
            table == pairs(aliases@),
            texts(here@).to_set() == present_after(table, initial),
            ascending(texts(missing@)),
            forall|name: Seq<char>| #[trigger]
                texts(missing@).contains(name) <==> (!texts(here@).contains(name) && exists|j: int|
                    0 <= j < m && (#[trigger] table[j]).1 == name),
        decreases aliases@.len() - m,
    {
        let ghost sofar = texts(missing@);
        assert(table[m as int] == (aliases@[m as int].0@, aliases@[m as int].1@));
        if !holds(&here, &aliases[m].1) {
            insert_once(&mut missing, &aliases[m].1);
        }
        proof {
            assert forall|name: Seq<char>| #[trigger] texts(missing@).contains(name) <==> (
            !texts(here@).contains(name) && exists|j: int|
                0 <= j < m + 1 && (#[trigger] table[j]).1 == name) by {
                assert(sofar.contains(name) <==> (!texts(here@).contains(name) && exists|j: int|
                    0 <= j < m && (#[trigger] table[j]).1 == name));
                if exists|j: int| 0 <= j < m && (#[trigger] table[j]).1 == name {
                    let j = choose|j: int| 0 <= j < m && (#[trigger] table[j]).1 == name;
                    assert(0 <= j < m + 1 && table[j].1 == name);
                }
            }
        }
        m = m + 1;
    }
    proof {
        assert forall|name: Seq<char>| #[trigger] texts(missing@).contains(name) <==> is_missing(
            table,
            initial,
            name,
        ) by {
            assert(texts(here@).to_set().contains(name) == texts(here@).contains(name));
        }
    }
    AliasPlan { copies, missing }
}

/// Pushing a text adds it to the texts that a list holds.
proof fn lemma_push_to_set(list: Seq<Seq<char>>, text: Seq<char>)
    ensures
        list.push(text).to_set() == list.to_set().insert(text),
{
    let longer = list.push(text);
    assert forall|other: Seq<char>| #[trigger]
        longer.to_set().contains(other) <==> list.to_set().insert(text).contains(other) by {
        if longer.contains(other) {
            let j = choose|j: int| 0 <= j < longer.len() && longer[j] == other;
            if j < list.len() {
                assert(list[j] == other);
            }
        }
        if list.contains(other) {
            let j = choose|j: int| 0 <= j < list.len() && list[j] == other;
            assert(longer[j] == other);
        }
        assert(longer[list.len() as int] == text);
    }
    assert(longer.to_set() =~= list.to_set().insert(text));
}

/// A pass that copies nothing changes nothing, and none of its aliases applies.
proof fn lemma_idle_pass(
    aliases: Seq<(Seq<char>, Seq<char>)>,
    present: Set<Seq<char>>,
    count: nat,
)
    requires
        count <= aliases.len(),
        pass_copies(aliases, present, count).len() == 0,
    ensures
        after_pass(aliases, present, count) == present,
        forall|k: int| 0 <= k < count ==> !applies(#[trigger] aliases[k], present),
    decreases count,
{
    if count > 0 {
        lemma_idle_pass(aliases, present, (count - 1) as nat);
    }
}

/// Where no alias applies, a pass copies nothing and changes nothing.
proof fn lemma_settled_pass(
    aliases: Seq<(Seq<char>, Seq<char>)>,
    present: Set<Seq<char>>,
    count: nat,
)
    requires
        count <= aliases.len(),
        settled(aliases, present),
    ensures
        pass_copies(aliases, present, count) == Seq::<(Seq<char>, Seq<char>)>::empty(),
        after_pass(aliases, present, count) == present,
    decreases count,
{
    if count > 0 {
        lemma_settled_pass(aliases, present, (count - 1) as nat);
        assert(!applies(aliases[count - 1], present));
    }
}

/// Once no alias applies, further passes copy nothing and change nothing.
proof fn lemma_settled_rounds(
    aliases: Seq<(Seq<char>, Seq<char>)>,
    present: Set<Seq<char>>,
    from: nat,
    to: nat,
)
    requires
        from <= to,
        settled(aliases, after_rounds(aliases, present, from)),
    ensures
        after_rounds(aliases, present, to) == after_rounds(aliases, present, from),
        round_copies(aliases, present, to) == round_copies(aliases, present, from),
    decreases to,
{
    if from < to {
        lemma_settled_rounds(aliases, present, from, (to - 1) as nat);
        lemma_settled_pass(aliases, after_rounds(aliases, present, from), aliases.len());
        assert(round_copies(aliases, present, to) =~= round_copies(aliases, present, from));
    }
}

/// How many of the first `count` aliases have a second name that is not there.
spec fn unmet(
    aliases: Seq<(Seq<char>, Seq<char>)>,
    present: Set<Seq<char>>,
    count: nat,
) -> nat
    decreases count,
{
    if count == 0 {
        0
    } else {
        unmet(aliases, present, (count - 1) as nat) + if present.contains(aliases[count - 1].1) {
            0nat
        } else {
            1nat
        }
    }
}

/// More files leave no more second names missing, and fewer where one of them is now
/// there.
proof fn lemma_unmet_falls(
    aliases: Seq<(Seq<char>, Seq<char>)>,
    less: Set<Seq<char>>,
    more: Set<Seq<char>>,
    count: nat,
)
    requires
        count <= aliases.len(),
        less.subset_of(more),
    ensures
        unmet(aliases, more, count) <= unmet(aliases, less, count) <= count,
        (exists|k: int|
            0 <= k < count && more.contains((#[trigger] aliases[k]).1) && !less.contains(
                aliases[k].1,
            )) ==> unmet(aliases, more, count) < unmet(aliases, less, count),
    decreases count,
{
    if count > 0 {
        lemma_unmet_falls(aliases, less, more, (count - 1) as nat);
        if exists|k: int|
            0 <= k < count && more.contains((#[trigger] aliases[k]).1) && !less.contains(
                aliases[k].1,
            ) {
            let k = choose|k: int|
                0 <= k < count && more.contains((#[trigger] aliases[k]).1) && !less.contains(
                    aliases[k].1,
                );
            if k < count - 1 {
                assert(0 <= k < count - 1 && more.contains(aliases[k].1) && !less.contains(
                    aliases[k].1,
                ));
            }
        }
    }
}

/// Where every second name is there, no alias applies.
proof fn lemma_all_met(
    aliases: Seq<(Seq<char>, Seq<char>)>,
    present: Set<Seq<char>>,
    count: nat,
)
    requires
        count <= aliases.len(),
        unmet(aliases, present, count) == 0,
    ensures
        forall|k: int| 0 <= k < count ==> present.contains((#[trigger] aliases[k]).1),
    decreases count,
{
    if count > 0 {
        lemma_all_met(aliases, present, (count - 1) as nat);
    }
}

proof fn lemma_pass_grows(
    aliases: Seq<(Seq<char>, Seq<char>)>,
    present: Set<Seq<char>>,
    from: nat,
    to: nat,
)
    requires
        from <= to <= aliases.len(),
    ensures
        after_pass(aliases, present, from).subset_of(after_pass(aliases, present, to)),
    decreases to,
{
    if from < to {
        lemma_pass_grows(aliases, present, from, (to - 1) as nat);
    }
}

/// A pass that copies something makes a second name that was not there.
proof fn lemma_busy_pass(
    aliases: Seq<(Seq<char>, Seq<char>)>,
    present: Set<Seq<char>>,
    count: nat,
)
    requires
        count <= aliases.len(),
        pass_copies(aliases, present, count).len() > 0,
    ensures
        exists|k: int|
            0 <= k < count && after_pass(aliases, present, count).contains(
                (#[trigger] aliases[k]).1,
            ) && !present.contains(aliases[k].1),
    decreases count,
{
    let last = (count - 1) as nat;
    if pass_copies(aliases, present, last).len() > 0 {
        lemma_busy_pass(aliases, present, last);
        let k = choose|k: int|
            0 <= k < last && after_pass(aliases, present, last).contains((#[trigger] aliases[k]).1)
                && !present.contains(aliases[k].1);
        assert(0 <= k < count && after_pass(aliases, present, count).contains(aliases[k].1));
    } else {
        lemma_idle_pass(aliases, present, last);
        let k = count - 1;
        assert(0 <= k < count && after_pass(aliases, present, count).contains(aliases[k].1));
    }
}

/// After `rounds` passes no alias applies, or that many second names were made.
proof fn lemma_rounds_settle(
    aliases: Seq<(Seq<char>, Seq<char>)>,
    present: Set<Seq<char>>,
    rounds: nat,
)
    ensures
        settled(aliases, after_rounds(aliases, present, rounds)) || unmet(
            aliases,
            after_rounds(aliases, present, rounds),
            aliases.len(),
        ) + rounds <= aliases.len(),
    decreases rounds,
{
    let count = aliases.len();
    if rounds == 0 {
        lemma_unmet_falls(aliases, present, present, count);
    } else {
        let earlier = after_rounds(aliases, present, (rounds - 1) as nat);
        let later = after_rounds(aliases, present, rounds);
        lemma_rounds_settle(aliases, present, (rounds - 1) as nat);
        if pass_copies(aliases, earlier, count).len() == 0 {
            lemma_idle_pass(aliases, earlier, count);
        } else if settled(aliases, earlier) {
            lemma_settled_pass(aliases, earlier, count);
        } else {
            lemma_pass_grows(aliases, earlier, 0, count);
            lemma_busy_pass(aliases, earlier, count);
            lemma_unmet_falls(aliases, earlier, later, count);
        }
    }
}

/// After aliasing no alias applies: where an alias's first name is there, so is its
/// second.
pub proof fn law_aliasing_settles(
    aliases: Seq<(Seq<char>, Seq<char>)>,
    present: Set<Seq<char>>,
)
    ensures
        settled(aliases, present_after(aliases, present)),
{
    let left = present_after(aliases, present);
    lemma_rounds_settle(aliases, present, aliases.len());
    if !settled(aliases, left) {
        lemma_all_met(aliases, left, aliases.len());
        assert forall|k: int| 0 <= k < aliases.len() implies !applies(
            #[trigger] aliases[k],
            left,
        ) by {
            assert(left.contains(aliases[k].1));
        }
    }
}

/// Aliasing is idempotent: a second run in the directory that a first run left copies
/// nothing and leaves the directory as it was.
pub proof fn law_aliasing_is_idempotent(
    aliases: Seq<(Seq<char>, Seq<char>)>,
    present: Set<Seq<char>>,
)
    ensures
        copied(aliases, present_after(aliases, present)).len() == 0,
        present_after(aliases, present_after(aliases, present)) == present_after(aliases, present),
{
    let left = present_after(aliases, present);
    law_aliasing_settles(aliases, present);
    lemma_settled_rounds(aliases, left, 0, aliases.len());
}

/// Aliasing makes no file without need: what is there afterwards is in every set of
/// files that holds what was there and in which no alias applies.
pub proof fn law_aliasing_makes_only_what_is_needed(
    aliases: Seq<(Seq<char>, Seq<char>)>,
    present: Set<Seq<char>>,
    enough: Set<Seq<char>>,
)
    requires
        present.subset_of(enough),
        settled(aliases, enough),
    ensures
        present_after(aliases, present).subset_of(enough),
{
    lemma_rounds_within(aliases, present, enough, aliases.len());
}

proof fn lemma_rounds_within(
    aliases: Seq<(Seq<char>, Seq<char>)>,
    present: Set<Seq<char>>,
    enough: Set<Seq<char>>,
    rounds: nat,
)
    requires
        present.subset_of(enough),
        settled(aliases, enough),
    ensures
        after_rounds(aliases, present, rounds).subset_of(enough),
    decreases rounds,
{
    if rounds > 0 {
        let earlier = after_rounds(aliases, present, (rounds - 1) as nat);
        lemma_rounds_within(aliases, present, enough, (rounds - 1) as nat);
        lemma_pass_within(aliases, earlier, enough, aliases.len());
    }
}

proof fn lemma_pass_within(
    aliases: Seq<(Seq<char>, Seq<char>)>,
    present: Set<Seq<char>>,
    enough: Set<Seq<char>>,
    count: nat,
)
    requires
        count <= aliases.len(),
        present.subset_of(enough),
        settled(aliases, enough),
    ensures
        after_pass(aliases, present, count).subset_of(enough),
    decreases count,
{
    if count > 0 {
        lemma_pass_within(aliases, present, enough, (count - 1) as nat);
        assert(!applies(aliases[count - 1], enough));
    }
}

/// Every copy can be made when its turn comes: with the copies before it made, its
/// source is there and its target is not.
pub open spec fn each_applies(
    copies: Seq<(Seq<char>, Seq<char>)>,
    present: Set<Seq<char>>,
) -> bool {
    forall|k: int|
        0 <= k < copies.len() ==> applies(
            #[trigger] copies[k],
            carried_out(copies.take(k), present),
        )
}

/// Making copies one after the other is making the first ones and then the rest.
proof fn lemma_carried_out_both(
    a: Seq<(Seq<char>, Seq<char>)>,
    b: Seq<(Seq<char>, Seq<char>)>,
    present: Set<Seq<char>>,
)
    ensures
        carried_out(a + b, present) == carried_out(b, carried_out(a, present)),
        each_applies(a, present) && each_applies(b, carried_out(a, present)) ==> each_applies(
            a + b,
            present,
        ),
    decreases b.len(),
{
    let both = a + b;
    if b.len() == 0 {
        assert(both =~= a);
    } else {
        lemma_carried_out_both(a, b.drop_last(), present);
        assert(both.drop_last() =~= a + b.drop_last());
        if each_applies(a, present) && each_applies(b, carried_out(a, present)) {
            let front = b.drop_last();
            assert forall|k: int| 0 <= k < front.len() implies applies(
                #[trigger] front[k],
                carried_out(front.take(k), carried_out(a, present)),
            ) by {
                assert(front[k] == b[k]);
                assert(front.take(k) =~= b.take(k));
            }
            assert forall|k: int| 0 <= k < both.len() implies applies(
                #[trigger] both[k],
                carried_out(both.take(k), present),
            ) by {
                if k < both.len() - 1 {
                    assert(both[k] == (a + front)[k]);
                    assert(both.take(k) =~= (a + front).take(k));
                } else {
                    assert(both.take(k) =~= a + front);
                    assert(b.take(b.len() - 1) =~= front);
                    assert(both[k] == b[b.len() - 1]);
                }
            }
        }
    }
}

proof fn lemma_pass_carried_out(
    aliases: Seq<(Seq<char>, Seq<char>)>,
    present: Set<Seq<char>>,
    count: nat,
)
    requires
        count <= aliases.len(),
    ensures
        carried_out(pass_copies(aliases, present, count), present) == after_pass(
            aliases,
            present,
            count,
        ),
        each_applies(pass_copies(aliases, present, count), present),
    decreases count,
{
    if count > 0 {
        let last = (count - 1) as nat;
        let sofar = pass_copies(aliases, present, last);
        let list = pass_copies(aliases, present, count);
        lemma_pass_carried_out(aliases, present, last);
        if applies(aliases[count - 1], after_pass(aliases, present, last)) {
            assert(list.drop_last() =~= sofar);
            assert forall|k: int| 0 <= k < list.len() implies applies(
                #[trigger] list[k],
                carried_out(list.take(k), present),
            ) by {
                assert(list.take(k) =~= sofar.take(k));
                if k < sofar.len() {
                    assert(list[k] == sofar[k]);
                } else {
                    assert(sofar.take(k) =~= sofar);
                }
            }
        }
    }
}

proof fn lemma_rounds_carried_out(
    aliases: Seq<(Seq<char>, Seq<char>)>,
    present: Set<Seq<char>>,
    rounds: nat,
)
    ensures
        carried_out(round_copies(aliases, present, rounds), present) == after_rounds(
            aliases,
            present,
            rounds,
        ),
        each_applies(round_copies(aliases, present, rounds), present),
    decreases rounds,
{
    if rounds > 0 {
        let earlier = after_rounds(aliases, present, (rounds - 1) as nat);
        lemma_rounds_carried_out(aliases, present, (rounds - 1) as nat);
        lemma_pass_carried_out(aliases, earlier, aliases.len());
        lemma_carried_out_both(
            round_copies(aliases, present, (rounds - 1) as nat),
            pass_copies(aliases, earlier, aliases.len()),
            present,
        );
    }
}

/// The copies can be made in their order: each finds its source there and its target
/// not, and together they make exactly the files that are there afterwards.
pub proof fn law_copies_can_be_made_in_order(
    aliases: Seq<(Seq<char>, Seq<char>)>,
    present: Set<Seq<char>>,
)
    ensures
        each_applies(copied(aliases, present), present),
        carried_out(copied(aliases, present), present) == present_after(aliases, present),
{
    lemma_rounds_carried_out(aliases, present, aliases.len());
}

/// Aliasing removes no file and overwrites none: what was there stays, and no
/// copy goes to a name that was there.
pub proof fn law_aliasing_overwrites_nothing(
    aliases: Seq<(Seq<char>, Seq<char>)>,
    present: Set<Seq<char>>,
)
    ensures
        present.subset_of(present_after(aliases, present)),
        forall|k: int|
            0 <= k < copied(aliases, present).len() ==> !present.contains(
                (#[trigger] copied(aliases, present)[k]).1,
            ),
{
    let copies = copied(aliases, present);
    law_copies_can_be_made_in_order(aliases, present);
    lemma_carried_out_grows(copies, present);
    assert forall|k: int| 0 <= k < copies.len() implies !present.contains(
        (#[trigger] copies[k]).1,
    ) by {
        lemma_carried_out_grows(copies.take(k), present);
    }
}

proof fn lemma_carried_out_grows(
    copies: Seq<(Seq<char>, Seq<char>)>,
    present: Set<Seq<char>>,
)
    ensures
        present.subset_of(carried_out(copies, present)),
    decreases copies.len(),
{
    if copies.len() > 0 {
        lemma_carried_out_grows(copies.drop_last(), present);
    }
}

/// An ascending list is determined by the texts that it holds.
pub proof fn law_ascending_lists_are_unique(a: Seq<Seq<char>>, b: Seq<Seq<char>>)
    requires
        ascending(a),
        ascending(b),
        forall|text: Seq<char>| #[trigger] a.contains(text) <==> b.contains(text),
    ensures
        a == b,
    decreases a.len(),
{
    if a.len() == 0 {
        if b.len() > 0 {
            assert(b.contains(b[0]));
            assert(a.contains(b[0]));
        }
        assert(a =~= b);
    } else {
        assert(a.contains(a[0]));
        let i = choose|i: int| 0 <= i < b.len() && b[i] == a[0];
        assert(b.contains(b[0]));
        assert(a.contains(b[0]));
        let j = choose|j: int| 0 <= j < a.len() && a[j] == b[0];
        if i > 0 && j > 0 {
            lemma_before_transitive(a[0], a[j], b[i]);
            lemma_before_irreflexive(a[0]);
        }
        assert(a[0] == b[0]);
        let rest_a = a.drop_first();
        let rest_b = b.drop_first();
        assert forall|text: Seq<char>| #[trigger] rest_a.contains(text) <==> rest_b.contains(
            text,
        ) by {
            lemma_before_irreflexive(a[0]);
            if rest_a.contains(text) {
                let k = choose|k: int| 0 <= k < rest_a.len() && rest_a[k] == text;
                assert(a[k + 1] == text);
                assert(a.contains(text));
                let n = choose|n: int| 0 <= n < b.len() && b[n] == text;
                assert(before(a[0], a[k + 1]));
                assert(n > 0);
                assert(rest_b[n - 1] == text);
            }
            if rest_b.contains(text) {
                let k = choose|k: int| 0 <= k < rest_b.len() && rest_b[k] == text;
                assert(b[k + 1] == text);
                assert(b.contains(text));
                assert(a.contains(text));
                let n = choose|n: int| 0 <= n < a.len() && a[n] == text;
                assert(before(b[0], b[k + 1]));
                assert(n > 0);
                assert(rest_a[n - 1] == text);
            }
        }
        law_ascending_lists_are_unique(rest_a, rest_b);
        assert(a =~= seq![a[0]] + rest_a);
        assert(b =~= seq![b[0]] + rest_b);
    }
}

/// Which files are there after `turns` turns, where the aliases have their turn one after
/// the other, again from the first after the last, and each copies where its first name
/// is there and its second is not.
pub open spec fn after_turns(
    aliases: Seq<(Seq<char>, Seq<char>)>,
    present: Set<Seq<char>>,
    turns: nat,
) -> Set<Seq<char>>
    decreases turns,
{
    if turns == 0 {
        present
    } else {
        let sofar = after_turns(aliases, present, (turns - 1) as nat);
        let alias = aliases[(turns - 1) % (aliases.len() as int)];
        if sofar.contains(alias.0) && !sofar.contains(alias.1) {
            sofar.insert(alias.1)
        } else {
            sofar
        }
    }
}

/// What is copied in these turns, in order.
pub open spec fn turn_copies(
    aliases: Seq<(Seq<char>, Seq<char>)>,
    present: Set<Seq<char>>,
    turns: nat,
) -> Seq<(Seq<char>, Seq<char>)>
    decreases turns,
{
    if turns == 0 {
        seq![]
    } else {
        let sofar = after_turns(aliases, present, (turns - 1) as nat);
        let alias = aliases[(turns - 1) % (aliases.len() as int)];
        if sofar.contains(alias.0) && !sofar.contains(alias.1) {
            turn_copies(aliases, present, (turns - 1) as nat).push(alias)
        } else {
            turn_copies(aliases, present, (turns - 1) as nat)
        }
    }
}

proof fn lemma_pass_is_turns(
    aliases: Seq<(Seq<char>, Seq<char>)>,
    present: Set<Seq<char>>,
    rounds: nat,
    count: nat,
)
    requires
        aliases.len() > 0,
        count <= aliases.len(),
    ensures
        after_pass(
            aliases,
            after_turns(aliases, present, rounds * aliases.len()),
            count,
        ) == after_turns(aliases, present, rounds * aliases.len() + count),
        turn_copies(aliases, present, rounds * aliases.len()) + pass_copies(
            aliases,
            after_turns(aliases, present, rounds * aliases.len()),
            count,
        ) == turn_copies(aliases, present, rounds * aliases.len() + count),
    decreases count,
{
    let start = rounds * aliases.len();
    let before = turn_copies(aliases, present, start);
    let state = after_turns(aliases, present, start);
    if count == 0 {
        assert(before + pass_copies(aliases, state, 0) =~= before);
    } else {
        let last = (count - 1) as nat;
        lemma_pass_is_turns(aliases, present, rounds, last);
        let n = aliases.len() as int;
        assert((start + last) as int % n == last as int) by {
            vstd::arithmetic::div_mod::lemma_mod_multiples_vanish(rounds as int, last as int, n);
            vstd::arithmetic::div_mod::lemma_small_mod(last, aliases.len());
            vstd::arithmetic::mul::lemma_mul_is_commutative(rounds as int, n);
        }
        assert((start + count - 1) as nat == start + last);
        assert(before + pass_copies(aliases, state, count) =~= turn_copies(
            aliases,
            present,
            start + count,
        ));
    }
}

proof fn lemma_rounds_are_turns(
    aliases: Seq<(Seq<char>, Seq<char>)>,
    present: Set<Seq<char>>,
    rounds: nat,
)
    requires
        aliases.len() > 0,
    ensures
        after_rounds(aliases, present, rounds) == after_turns(
            aliases,
            present,
            rounds * aliases.len(),
        ),
        round_copies(aliases, present, rounds) == turn_copies(
            aliases,
            present,
            rounds * aliases.len(),
        ),
    decreases rounds,
{
    if rounds == 0 {
        assert(rounds * aliases.len() == 0) by (nonlinear_arith)
            requires
                rounds == 0,
        ;
    } else {
        let before = (rounds - 1) as nat;
        lemma_rounds_are_turns(aliases, present, before);
        lemma_pass_is_turns(aliases, present, before, aliases.len());
        assert(before * aliases.len() + aliases.len() == rounds * aliases.len())
            by (nonlinear_arith)
            requires
                before == rounds - 1,
        ;
    }
}

/// Aliasing is the aliases taking turns, in their order and again from the first, until
/// there has been a round for each of them: what is copied, in which order, and what is
/// there afterwards.
pub proof fn law_aliases_take_turns(
    aliases: Seq<(Seq<char>, Seq<char>)>,
    present: Set<Seq<char>>,
)
    ensures
        copied(aliases, present) == turn_copies(
            aliases,
            present,
            aliases.len() * aliases.len(),
        ),
        present_after(aliases, present) == after_turns(
            aliases,
            present,
            aliases.len() * aliases.len(),
        ),
{
    if aliases.len() > 0 {
        lemma_rounds_are_turns(aliases, present, aliases.len());
    } else {
        assert(aliases.len() * aliases.len() == 0);
    }
}

proof fn lemma_made_by_alias(
    aliases: Seq<(Seq<char>, Seq<char>)>,
    present: Set<Seq<char>>,
    name: Seq<char>,
)
    requires
        present_after(aliases, present).contains(name),
        !present.contains(name),
    ensures
        exists|k: int|
            0 <= k < aliases.len() && (#[trigger] aliases[k]).1 == name && present_after(
                aliases,
                present,
            ).contains(aliases[k].0),
{
    if forall|k: int|
        0 <= k < aliases.len() && (#[trigger] aliases[k]).1 == name ==> !present_after(
            aliases,
            present,
        ).contains(aliases[k].0) {
        let without = present_after(aliases, present).remove(name);
        law_aliasing_settles(aliases, present);
        law_aliasing_overwrites_nothing(aliases, present);
        assert(settled(aliases, without)) by {
            assert forall|k: int| 0 <= k < aliases.len() implies !applies(
                #[trigger] aliases[k],
                without,
            ) by {
                assert(!applies(aliases[k], present_after(aliases, present)));
            }
        }
        assert(present.subset_of(without));
        law_aliasing_makes_only_what_is_needed(aliases, present, without);
        assert(without.contains(name));
    }
}

/// A name that linkers look for is reported missing exactly where it was not there and
/// no alias that makes it has anything to copy from, not even in the end.
pub proof fn law_missing_names_have_no_source(
    aliases: Seq<(Seq<char>, Seq<char>)>,
    present: Set<Seq<char>>,
    name: Seq<char>,
)
    ensures
        is_missing(aliases, present, name) <==> {
            &&& exists|k: int| 0 <= k < aliases.len() && (#[trigger] aliases[k]).1 == name
            &&& !present.contains(name)
            &&& forall|k: int|
                0 <= k < aliases.len() && (#[trigger] aliases[k]).1 == name ==> !present_after(
                    aliases,
                    present,
                ).contains(aliases[k].0)
        },
{
    law_aliasing_settles(aliases, present);
    law_aliasing_overwrites_nothing(aliases, present);
    let left = present_after(aliases, present);
    assert forall|k: int|
        0 <= k < aliases.len() && (#[trigger] aliases[k]).1 == name && left.contains(
            aliases[k].0,
        ) implies left.contains(name) by {
        assert(!applies(aliases[k], left));
    }
    if left.contains(name) && !present.contains(name) {
        lemma_made_by_alias(aliases, present, name);
    }
}

/// The order of texts goes by the first character in which they differ; a text comes
/// before every longer one that it starts.
pub proof fn law_first_difference_decides(
    start: Seq<char>,
    a: Seq<char>,
    b: Seq<char>,
)
    ensures
        a.len() > 0 && b.len() > 0 && a[0] != b[0] ==> (before(start + a, start + b) <==> a[0]
            < b[0]),
        a.len() == 0 ==> (before(start + a, start + b) <==> b.len() > 0),
        b.len() == 0 ==> !before(start + a, start + b),
    decreases start.len(),
{
    if start.len() == 0 {
        assert(start + a =~= a);
        assert(start + b =~= b);
    } else {
        let rest = start.drop_first();
        assert((start + a).drop_first() =~= rest + a);
        assert((start + b).drop_first() =~= rest + b);
        assert((start + a)[0] == start[0] && (start + b)[0] == start[0]);
        law_first_difference_decides(rest, a, b);
    }
}

} // verus!
