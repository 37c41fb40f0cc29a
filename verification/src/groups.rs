use vstd::prelude::*;

use crate::util::str_eq;
use crate::value::Value;

verus! {

/// The model of one delivery batch: each `(path, value)` pair with the path
/// as its characters.
pub open spec fn pairs_view(ps: Seq<(String, Value)>) -> Seq<(Seq<char>, Value)> {
    ps.map_values(|p: (String, Value)| (p.0@, p.1))
}

/// The batch of the first group at or after position `i` whose handler name
/// reads `name`.
pub open spec fn group_get_from(
    gs: Seq<(String, Vec<(String, Value)>)>,
    name: Seq<char>,
    i: int,
) -> Option<Seq<(Seq<char>, Value)>>
    decreases gs.len() - i,
{
    if i < 0 || i >= gs.len() {
        Option::None
    } else if gs[i].0@ == name {
        Option::Some(pairs_view(gs[i].1@))
    } else {
        group_get_from(gs, name, i + 1)
    }
}

/// The batch filed under handler `name`, if any group carries that name.
pub open spec fn group_get(
    gs: Seq<(String, Vec<(String, Value)>)>,
    name: Seq<char>,
) -> Option<Seq<(Seq<char>, Value)>> {
    group_get_from(gs, name, 0)
}

/// The result of one propagation pass: for each sink handler name that
/// annotates an updated node, the ordered batch of `(path, value)` pairs to
/// deliver to that handler, in discovery order.
pub struct EventGroups {
    /// One entry per handler name, each name at most once.
    pub groups: Vec<(String, Vec<(String, Value)>)>,
}

impl EventGroups {
    /// What `get` returns, as a function of the stored groups.
    pub open spec fn spec_get(&self, name: Seq<char>) -> Option<Seq<(Seq<char>, Value)>> {
        group_get(self.groups@, name)
    }

    /// The batch for handler `name`: `None` when the pass updated no
    /// sink-annotated node of that handler.
    pub fn get(&self, name: &str) -> (r: Option<&Vec<(String, Value)>>)
        ensures
            match r {
                Some(v) => self.spec_get(name@) == Some(pairs_view(v@)),
                None => self.spec_get(name@) is None,
            },
    {
        let n = self.groups.len();
        let mut i: usize = 0;
        while i < n
            invariant
                n == self.groups@.len(),
                i <= n,
                group_get(self.groups@, name@) == group_get_from(self.groups@, name@, i as int),
            decreases n - i,
        {
            if str_eq(self.groups[i].0.as_str(), name) {
                return Some(&self.groups[i].1);
            }
            i += 1;
        }
        None
    }

}

/// Appending a pair to the group at position `g` — the first group carrying
/// that name — changes exactly that name's batch and no other.
pub proof fn lemma_group_get_update(
    gs1: Seq<(String, Vec<(String, Value)>)>,
    gs2: Seq<(String, Vec<(String, Value)>)>,
    g: int,
    nm: Seq<char>,
    i: int,
)
    requires
        0 <= g < gs1.len(),
        gs2.len() == gs1.len(),
        forall|k: int| 0 <= k < gs1.len() && k != g ==> gs2[k] == gs1[k],
        gs2[g].0@ == gs1[g].0@,
        forall|k: int| 0 <= k < g ==> (#[trigger] gs1[k].0@) != gs1[g].0@,
        0 <= i <= gs1.len(),
    ensures
        group_get_from(gs2, nm, i) == if nm == gs1[g].0@ && i <= g {
            Option::Some(pairs_view(gs2[g].1@))
        } else {
            group_get_from(gs1, nm, i)
        },
    decreases gs1.len() - i,
{
    if i >= gs1.len() {
    } else if i == g {
        if nm == gs1[g].0@ {
        } else {
            lemma_group_get_update(gs1, gs2, g, nm, i + 1);
        }
    } else {
        if gs1[i].0@ == nm {
        } else {
            lemma_group_get_update(gs1, gs2, g, nm, i + 1);
        }
    }
}

/// Appending a new group at the end changes exactly the batch of a name no
/// existing group carries.
pub proof fn lemma_group_get_push(
    gs: Seq<(String, Vec<(String, Value)>)>,
    entry: (String, Vec<(String, Value)>),
    nm: Seq<char>,
    i: int,
)
    requires
        0 <= i <= gs.len(),
    ensures
        group_get_from(gs.push(entry), nm, i) == if group_get_from(gs, nm, i) is Some {
            group_get_from(gs, nm, i)
        } else if nm == entry.0@ {
            Option::Some(pairs_view(entry.1@))
        } else {
            Option::None
        },
    decreases gs.len() - i,
{
    if i >= gs.len() {
        assert(gs.push(entry)[gs.len() as int] == entry);
    } else {
        assert(gs.push(entry)[i] == gs[i]);
        if gs[i].0@ == nm {
        } else {
            lemma_group_get_push(gs, entry, nm, i + 1);
        }
    }
}

/// Append `(path, v)` to the batch of handler `name`, creating the group at
/// the end when the name is new. Every other name's batch is untouched.
pub(crate) fn add_pair(
    groups: &mut Vec<(String, Vec<(String, Value)>)>,
    name: &String,
    path: &String,
    v: &Value,
)
    ensures
        forall|nm: Seq<char>|
            #![trigger group_get(final(groups)@, nm)]
            group_get(final(groups)@, nm) == if nm == name@ {
                Option::Some(
                    (match group_get(old(groups)@, nm) {
                        Option::Some(b) => b,
                        Option::None => Seq::empty(),
                    }).push((path@, *v)),
                )
            } else {
                group_get(old(groups)@, nm)
            },
{
    let n = groups.len();
    let mut g: usize = 0;
    while g < n
        invariant
            n == groups@.len(),
            g <= n,
            *groups == *old(groups),
            forall|k: int| 0 <= k < g ==> (#[trigger] groups@[k].0@) != name@,
        decreases n - g,
    {
        if str_eq(groups[g].0.as_str(), name.as_str()) {
            let pr = (path.clone(), v.clone());
            let ghost prg = pr;
            let ghost gs1 = groups@;
            let entry = &mut groups[g];
            entry.1.push(pr);
            proof {
                let gs2 = groups@;
                assert(gs2[g as int].1@ == gs1[g as int].1@.push(prg));
                assert(pairs_view(gs2[g as int].1@) =~= pairs_view(gs1[g as int].1@).push(
                    (path@, *v),
                ));
                assert forall|nm: Seq<char>| #![trigger group_get(gs2, nm)]
                    group_get(gs2, nm) == (if nm == name@ {
                        Option::Some(
                            (match group_get(gs1, nm) {
                                Option::Some(b) => b,
                                Option::None => Seq::empty(),
                            }).push((path@, *v)),
                        )
                    } else {
                        group_get(gs1, nm)
                    }) by {
                    lemma_group_get_update(gs1, gs2, g as int, nm, 0);
                    if nm == name@ {
                        lemma_group_get_update(gs1, gs1, g as int, nm, 0);
                    }
                }
            }
            return ;
        }
        g += 1;
    }
    let pr = (path.clone(), v.clone());
    let mut batch: Vec<(String, Value)> = Vec::new();
    batch.push(pr);
    let ghost gs1 = groups@;
    let entry = (name.clone(), batch);
    proof {
        assert(pairs_view(entry.1@) =~= Seq::empty().push((path@, *v)));
    }
    groups.push(entry);
    proof {
        let gs2 = groups@;
        assert forall|nm: Seq<char>| #![trigger group_get(gs2, nm)]
            group_get(gs2, nm) == (if nm == name@ {
                Option::Some(
                    (match group_get(gs1, nm) {
                        Option::Some(b) => b,
                        Option::None => Seq::empty(),
                    }).push((path@, *v)),
                )
            } else {
                group_get(gs1, nm)
            }) by {
            lemma_group_get_push(gs1, entry, nm, 0);
            if nm == name@ {
                if group_get(gs1, nm) is Some {
                    lemma_group_get_some_has_match(gs1, nm, 0);
                }
            }
        }
    }
}

/// A name whose lookup succeeds is carried by some group.
pub proof fn lemma_group_get_some_has_match(
    gs: Seq<(String, Vec<(String, Value)>)>,
    nm: Seq<char>,
    i: int,
)
    requires
        0 <= i <= gs.len(),
        group_get_from(gs, nm, i) is Some,
    ensures
        exists|k: int| i <= k < gs.len() && (#[trigger] gs[k].0@) == nm,
    decreases gs.len() - i,
{
    if i >= gs.len() {
    } else if gs[i].0@ == nm {
    } else {
        lemma_group_get_some_has_match(gs, nm, i + 1);
    }
}

} // verus!
