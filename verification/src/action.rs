//! Module names and the actions they stand for.

use vstd::prelude::*;

use crate::text::same_text;

verus! {

/// The action that the first alias of a name gives it.
pub open spec fn alias_of(aliases: Seq<(String, String)>, name: Seq<char>) -> Option<Seq<char>>
    decreases aliases.len(),
{
    if aliases.len() == 0 {
        None
    } else if aliases[0].0@ == name {
        Some(aliases[0].1@)
    } else {
        alias_of(aliases.subrange(1, aliases.len() as int), name)
    }
}

/// The action behind a name, when no more than `hops` aliases lead to it. A
/// name that is its own alias is an action.
pub open spec fn action_of(
    aliases: Seq<(String, String)>,
    name: Seq<char>,
    hops: nat,
) -> Option<Seq<char>>
    decreases hops,
{
    match alias_of(aliases, name) {
        None => Some(name),
        Some(action) => if action == name {
            Some(name)
        } else if hops == 0 {
            None
        } else {
            action_of(aliases, action, (hops - 1) as nat)
        },
    }
}

/// The action that a module name stands for; `None` when its aliases go round.
pub open spec fn resolved(aliases: Seq<(String, String)>, name: Seq<char>) -> Option<Seq<char>> {
    action_of(aliases, name, aliases.len())
}

fn find_alias<'a>(aliases: &'a Vec<(String, String)>, name: &str) -> (r: Option<&'a str>)
    ensures
        match r {
            Some(action) => alias_of(aliases@, name@) == Some(action@),
            None => alias_of(aliases@, name@) is None,
        },
{
    let mut i: usize = 0;
    assert(aliases@.subrange(0, aliases@.len() as int) =~= aliases@);
    while i < aliases.len()
        invariant
            i <= aliases@.len(),
            alias_of(aliases@, name@) == alias_of(
                aliases@.subrange(i as int, aliases@.len() as int),
                name@,
            ),
        decreases aliases@.len() - i,
    {
        let ghost rest = aliases@.subrange(i as int, aliases@.len() as int);
        assert(rest[0] == aliases@[i as int]);
        assert(rest.subrange(1, rest.len() as int) =~= aliases@.subrange(
            i + 1,
            aliases@.len() as int,
        ));
        if same_text(aliases[i].0.as_str(), name) {
            return Some(aliases[i].1.as_str());
        }
        i = i + 1;
    }
    None
}

/// Follow the aliases of a name to its action.
pub fn follow_aliases<'a>(aliases: &'a Vec<(String, String)>, module_name: &'a str) -> (r: Option<
    &'a str,
>)
    ensures
        match r {
            Some(action) => resolved(aliases@, module_name@) == Some(action@),
            None => resolved(aliases@, module_name@) is None,
        },
{
    let mut name: &'a str = module_name;
    let mut left: usize = aliases.len();
    loop
        invariant
            resolved(aliases@, module_name@) == action_of(aliases@, name@, left as nat),
        decreases left,
    {
        match find_alias(aliases, name) {
            None => {
                return Some(name);
            },
            Some(action) => {
                if same_text(action, name) {
                    return Some(name);
                }
                if left == 0 {
                    return None;
                }
                left = left - 1;
                name = action;
            },
        }
    }
}

/// A resolved action stands for itself: it has no alias but its own name.
pub proof fn resolved_actions_are_final(aliases: Seq<(String, String)>, name: Seq<char>)
    ensures
        match resolved(aliases, name) {
            Some(action) => match alias_of(aliases, action) {
                None => true,
                Some(again) => again == action,
            },
            None => true,
        },
{
    lemma_action_final(aliases, name, aliases.len());
}

proof fn lemma_action_final(aliases: Seq<(String, String)>, name: Seq<char>, hops: nat)
    ensures
        match action_of(aliases, name, hops) {
            Some(action) => match alias_of(aliases, action) {
                None => true,
                Some(again) => again == action,
            },
            None => true,
        },
    decreases hops,
{
    match alias_of(aliases, name) {
        None => {},
        Some(action) => {
            if action != name && hops > 0 {
                lemma_action_final(aliases, action, (hops - 1) as nat);
            }
        },
    }
}

/// The name that is reached from a name after some aliases.
pub open spec fn followed(aliases: Seq<(String, String)>, name: Seq<char>, count: nat) -> Seq<char>
    decreases count,
{
    if count == 0 {
        name
    } else {
        let before = followed(aliases, name, (count - 1) as nat);
        match alias_of(aliases, before) {
            None => before,
            Some(action) => action,
        }
    }
}

/// A name that stands for itself.
pub open spec fn stands(aliases: Seq<(String, String)>, name: Seq<char>) -> bool {
    match alias_of(aliases, name) {
        None => true,
        Some(action) => action == name,
    }
}

/// Aliases that lead from a name back to where they have been.
pub open spec fn goes_round(aliases: Seq<(String, String)>, name: Seq<char>) -> bool {
    exists|i: nat, j: nat|
        #![trigger followed(aliases, name, i), followed(aliases, name, j)]
        i < j <= aliases.len() && followed(aliases, name, i) == followed(aliases, name, j)
            && !stands(aliases, followed(aliases, name, i))
}

proof fn lemma_followed_first(aliases: Seq<(String, String)>, name: Seq<char>, count: nat)
    requires
        !stands(aliases, name),
    ensures
        followed(aliases, name, count + 1) == followed(
            aliases,
            alias_of(aliases, name)->Some_0,
            count,
        ),
    decreases count,
{
    if count > 0 {
        lemma_followed_first(aliases, name, (count - 1) as nat);
    } else {
        assert(followed(aliases, name, 0) == name);
    }
}

proof fn lemma_resolved_by(aliases: Seq<(String, String)>, name: Seq<char>, hops: nat)
    ensures
        action_of(aliases, name, hops) is None ==> forall|n: nat|
            n <= hops ==> !stands(aliases, #[trigger] followed(aliases, name, n)),
        action_of(aliases, name, hops) is Some ==> exists|n: nat|
            n <= hops && stands(aliases, #[trigger] followed(aliases, name, n)),
    decreases hops,
{
    if stands(aliases, name) {
        assert(stands(aliases, followed(aliases, name, 0)));
    } else if hops > 0 {
        let next = alias_of(aliases, name)->Some_0;
        lemma_resolved_by(aliases, next, (hops - 1) as nat);
        if action_of(aliases, name, hops) is Some {
            let n = choose|n: nat|
                n <= hops - 1 && stands(aliases, #[trigger] followed(aliases, next, n));
            lemma_followed_first(aliases, name, n);
            assert(stands(aliases, followed(aliases, name, n + 1)));
        } else {
            assert forall|n: nat| n <= hops implies !stands(
                aliases,
                #[trigger] followed(aliases, name, n),
            ) by {
                if n > 0 {
                    lemma_followed_first(aliases, name, (n - 1) as nat);
                }
            }
        }
    } else {
        assert(followed(aliases, name, 0) == name);
    }
}

proof fn lemma_alias_place(aliases: Seq<(String, String)>, name: Seq<char>)
    requires
        alias_of(aliases, name) is Some,
    ensures
        exists|p: int| 0 <= p < aliases.len() && (#[trigger] aliases[p]).0@ == name,
    decreases aliases.len(),
{
    if aliases[0].0@ != name {
        let rest = aliases.subrange(1, aliases.len() as int);
        lemma_alias_place(rest, name);
        let p = choose|p: int| 0 <= p < rest.len() && (#[trigger] rest[p]).0@ == name;
        assert(aliases[p + 1] == rest[p]);
    } else {
        assert(aliases[0].0@ == name);
    }
}

proof fn lemma_stands_still(
    aliases: Seq<(String, String)>,
    name: Seq<char>,
    first: nat,
    later: nat,
)
    requires
        stands(aliases, followed(aliases, name, first)),
        first <= later,
    ensures
        followed(aliases, name, later) == followed(aliases, name, first),
    decreases later - first,
{
    if first < later {
        lemma_stands_still(aliases, name, first, (later - 1) as nat);
    }
}

proof fn lemma_repeats(
    aliases: Seq<(String, String)>,
    name: Seq<char>,
    i: nat,
    j: nat,
    more: nat,
)
    requires
        followed(aliases, name, i) == followed(aliases, name, j),
    ensures
        followed(aliases, name, i + more) == followed(aliases, name, j + more),
    decreases more,
{
    if more > 0 {
        lemma_repeats(aliases, name, i, j, (more - 1) as nat);
    }
}

proof fn lemma_rounds(
    aliases: Seq<(String, String)>,
    name: Seq<char>,
    i: nat,
    j: nat,
    rounds: nat,
)
    requires
        i < j,
        followed(aliases, name, i) == followed(aliases, name, j),
    ensures
        followed(aliases, name, i + rounds * ((j - i) as nat)) == followed(aliases, name, i),
    decreases rounds,
{
    let size = (j - i) as nat;
    if rounds > 0 {
        lemma_rounds(aliases, name, i, j, (rounds - 1) as nat);
        let before = ((rounds - 1) as nat) * size;
        lemma_repeats(aliases, name, i, j, before);
        assert(rounds * size == before + size) by (nonlinear_arith)
            requires
                rounds > 0,
                before == (rounds - 1) * size,
        ;
        assert(j + before == i + rounds * size);
    } else {
        assert(rounds * size == 0) by (nonlinear_arith)
            requires
                rounds == 0,
        ;
    }
}

/// A module name has no action exactly where its aliases go round.
pub proof fn only_round_aliases_have_no_action(aliases: Seq<(String, String)>, name: Seq<char>)
    ensures
        resolved(aliases, name) is None <==> goes_round(aliases, name),
{
    let count = aliases.len();
    lemma_resolved_by(aliases, name, count);
    if resolved(aliases, name) is None {
        let place = |n: int|
            choose|p: int|
                0 <= p < aliases.len() && (#[trigger] aliases[p]).0@ == followed(
                    aliases,
                    name,
                    n as nat,
                );
        let places = Seq::new((count + 1) as nat, place);
        assert forall|n: int| 0 <= n < places.len() implies 0 <= #[trigger] places[n]
            < aliases.len() && aliases[places[n]].0@ == followed(aliases, name, n as nat) by {
            assert(!stands(aliases, followed(aliases, name, n as nat)));
            lemma_alias_place(aliases, followed(aliases, name, n as nat));
        }
        if places.no_duplicates() {
            places.unique_seq_to_set();
            let room = vstd::set_lib::set_int_range(0, count as int);
            vstd::set_lib::lemma_int_range(0, count as int);
            assert(places.to_set().subset_of(room)) by {
                assert forall|p: int| places.to_set().contains(p) implies room.contains(p) by {
                    let n = choose|n: int| 0 <= n < places.len() && places[n] == p;
                    assert(0 <= places[n] < aliases.len());
                }
            }
            vstd::set_lib::lemma_len_subset(places.to_set(), room);
            assert(false);
        }
        let (a, b) = choose|a: int, b: int|
            0 <= a < places.len() && 0 <= b < places.len() && a != b && places[a] == places[b];
        let (i, j) = if a < b {
            (a as nat, b as nat)
        } else {
            (b as nat, a as nat)
        };
        assert(places[i as int] == places[j as int]);
        assert(followed(aliases, name, i) == followed(aliases, name, j));
        assert(!stands(aliases, followed(aliases, name, i)));
    } else if goes_round(aliases, name) {
        let (i, j) = choose|i: nat, j: nat|
            #![trigger followed(aliases, name, i), followed(aliases, name, j)]
            i < j <= aliases.len() && followed(aliases, name, i) == followed(aliases, name, j)
                && !stands(aliases, followed(aliases, name, i));
        let n = choose|n: nat|
            n <= count && stands(aliases, #[trigger] followed(aliases, name, n));
        lemma_rounds(aliases, name, i, j, n);
        let far = i + n * ((j - i) as nat);
        assert(far >= n) by (nonlinear_arith)
            requires
                far == i + n * (j - i),
                j > i,
                i >= 0,
                n >= 0,
        ;
        lemma_stands_still(aliases, name, n, far);
    }
}

/// Some names contain the given one.
pub open spec fn lists(names: Seq<String>, name: Seq<char>) -> bool {
    exists|i: int| 0 <= i < names.len() && (#[trigger] names[i])@ == name
}

pub fn contains_name(names: &Vec<String>, name: &str) -> (r: bool)
    ensures
        r == lists(names@, name@),
{
    let mut i: usize = 0;
    while i < names.len()
        invariant
            i <= names@.len(),
            forall|j: int| 0 <= j < i ==> (#[trigger] names@[j])@ != name@,
        decreases names@.len() - i,
    {
        if same_text(names[i].as_str(), name) {
            assert(names@[i as int]@ == name@);
            return true;
        }
        i = i + 1;
    }
    false
}

} // verus!
