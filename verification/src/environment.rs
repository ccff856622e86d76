//! The variables of a process: each name once, in the order of the names.
use crate::model;
use crate::text;
use vstd::prelude::*;

verus! {

/// Variables in mathematical terms: names and values.
pub type VariablesView = Seq<(Seq<char>, Seq<char>)>;

/// Variables in the order of their names once one more is set. A value that was set
/// under the name before is replaced.
pub open spec fn with_variable(env: VariablesView, name: Seq<char>, value: Seq<char>) -> VariablesView
    decreases env.len(),
{
    if env.len() == 0 || text::text_less(env.last().0, name) {
        env.push((name, value))
    } else if env.last().0 == name {
        env.drop_last().push((name, value))
    } else {
        with_variable(env.drop_last(), name, value).push(env.last())
    }
}

/// Variables that are set one after the other, in the order of their names.
pub open spec fn by_name(env: VariablesView) -> VariablesView
    decreases env.len(),
{
    if env.len() == 0 {
        Seq::empty()
    } else {
        with_variable(by_name(env.drop_last()), env.last().0, env.last().1)
    }
}

/// Whether variables stand in the order of their names, each name once.
pub open spec fn in_name_order(env: VariablesView) -> bool {
    forall|i: int, j: int|
        0 <= i < j < env.len() ==> text::text_less(#[trigger] env[i].0, #[trigger] env[j].0)
}

/// What a variable was set to last.
pub open spec fn value_of(env: VariablesView, name: Seq<char>) -> Option<Seq<char>>
    decreases env.len(),
{
    if env.len() == 0 {
        None
    } else if env.last().0 == name {
        Some(env.last().1)
    } else {
        value_of(env.drop_last(), name)
    }
}

proof fn lemma_with_variable(env: VariablesView, name: Seq<char>, value: Seq<char>, bound: Seq<char>)
    requires
        in_name_order(env),
    ensures
        in_name_order(with_variable(env, name, value)),
        with_variable(env, name, value).len() > 0,
        (text::text_less(name, bound) && (env.len() > 0 ==> text::text_less(env.last().0, bound)))
            ==> text::text_less(with_variable(env, name, value).last().0, bound),
    decreases env.len(),
{
    if env.len() > 0 && !text::text_less(env.last().0, name) {
        let front = env.drop_last();
        if env.last().0 != name {
            text::lemma_text_less_total(env.last().0, name);
            if front.len() > 0 {
                assert(text::text_less(env[front.len() - 1].0, env[env.len() - 1].0));
            }
            lemma_with_variable(front, name, value, env.last().0);
            lemma_ends_below(with_variable(front, name, value), env.last());
        } else if front.len() > 0 {
            assert(text::text_less(env[front.len() - 1].0, env[env.len() - 1].0));
            lemma_ends_below(front, (name, value));
        }
    } else if env.len() > 0 {
        lemma_ends_below(env, (name, value));
    }
}

proof fn lemma_ends_below(env: VariablesView, next: (Seq<char>, Seq<char>))
    requires
        in_name_order(env),
        env.len() > 0 ==> text::text_less(env.last().0, next.0),
    ensures
        in_name_order(env.push(next)),
{
    let all = env.push(next);
    assert forall|i: int, j: int| 0 <= i < j < all.len() implies text::text_less(
        #[trigger] all[i].0,
        #[trigger] all[j].0,
    ) by {
        assert(all[i] == env[i]);
        if j < env.len() {
            assert(all[j] == env[j]);
        } else if i < env.len() - 1 {
            text::lemma_text_less_trans(env[i].0, env[env.len() - 1].0, next.0);
        }
    }
}

proof fn lemma_value_of_set(env: VariablesView, name: Seq<char>, value: Seq<char>, asked: Seq<char>)
    ensures
        value_of(with_variable(env, name, value), asked) == (if asked == name {
            Some(value)
        } else {
            value_of(env, asked)
        }),
    decreases env.len(),
{
    let all = with_variable(env, name, value);
    if env.len() == 0 || text::text_less(env.last().0, name) {
        assert(all.drop_last() =~= env);
    } else if env.last().0 == name {
        assert(all.drop_last() =~= env.drop_last());
    } else {
        lemma_value_of_set(env.drop_last(), name, value, asked);
        assert(all.drop_last() =~= with_variable(env.drop_last(), name, value));
    }
}

/// Variables by name hold each name once, in the order of the names, under the value
/// that was set last.
pub proof fn law_each_variable_once(env: VariablesView, name: Seq<char>)
    ensures
        in_name_order(by_name(env)),
        value_of(by_name(env), name) == value_of(env, name),
    decreases env.len(),
{
    if env.len() > 0 {
        let front = by_name(env.drop_last());
        law_each_variable_once(env.drop_last(), name);
        lemma_with_variable(front, env.last().0, env.last().1, env.last().0);
        lemma_value_of_set(front, env.last().0, env.last().1, name);
    }
}

/// Variables that stand in the order of their names already stay as they are.
pub proof fn law_ordered_variables_stay(env: VariablesView)
    requires
        in_name_order(env),
    ensures
        by_name(env) == env,
    decreases env.len(),
{
    if env.len() > 0 {
        let front = env.drop_last();
        assert forall|i: int, j: int| 0 <= i < j < front.len() implies text::text_less(
            #[trigger] front[i].0,
            #[trigger] front[j].0,
        ) by {
            assert(front[i] == env[i] && front[j] == env[j]);
        }
        law_ordered_variables_stay(front);
        if front.len() > 0 {
            assert(text::text_less(env[front.len() - 1].0, env[env.len() - 1].0));
        }
        assert(front.push(env.last()) =~= env);
    }
}

/// Sets a variable among others that stand in the order of their names.
pub fn set_variable(env: &mut Vec<(String, String)>, name: &str, value: &str)
    ensures
        model::pair_views(final(env)@) == with_variable(
            model::pair_views(old(env)@),
            name@,
            value@,
        ),
{
    let ghost start = model::pair_views(env@);
    let ghost wanted = with_variable(start, name@, value@);
    let mut i: usize = env.len();
    proof {
        assert(start.take(i as int) =~= start);
        assert(start.skip(i as int) =~= Seq::empty());
        assert(wanted =~= wanted + start.skip(i as int));
    }
    while i > 0
        invariant
            i <= env@.len(),
            start == model::pair_views(env@),
            wanted == with_variable(start.take(i as int), name@, value@) + start.skip(i as int),
        ensures
            i <= env@.len(),
            start == model::pair_views(env@),
            wanted == with_variable(start.take(i as int), name@, value@) + start.skip(i as int),
            i > 0 ==> start[i - 1].0 == name@ || text::text_less(start[i - 1].0, name@),
        decreases i,
    {
        let earlier = env[i - 1].0.as_str();
        let ghost part = start.take(i as int);
        proof {
            assert(part.last() == start[i - 1]);
            assert(start[i - 1].0 == earlier@);
        }
        if text::less(earlier, name) || text::same_text(earlier, name) {
            break;
        }
        proof {
            assert(part.drop_last() =~= start.take(i - 1));
            assert(with_variable(part, name@, value@) + start.skip(i as int) =~= with_variable(
                start.take(i - 1),
                name@,
                value@,
            ) + start.skip(i - 1));
        }
        i -= 1;
    }
    let ghost part = start.take(i as int);
    if i > 0 && text::same_text(env[i - 1].0.as_str(), name) {
        proof {
            text::lemma_text_less_total(name@, name@);
            assert(part.last() == start[i - 1]);
        }
        env.set(i - 1, (text::owned(name), text::owned(value)));
        proof {
            assert(model::pair_views(env@) =~= part.drop_last().push((name@, value@))
                + start.skip(i as int));
        }
    } else {
        proof {
            if i > 0 {
                assert(part.last() == start[i - 1]);
            }
        }
        env.insert(i, (text::owned(name), text::owned(value)));
        proof {
            assert(model::pair_views(env@) =~= part.push((name@, value@)) + start.skip(i as int));
        }
    }
}

/// Puts variables that are set one after the other in the order of their names.
pub fn order_by_name(env: &[(String, String)]) -> (r: Vec<(String, String)>)
    ensures
        model::pair_views(r@) == by_name(model::pair_views(env@)),
{
    let mut out: Vec<(String, String)> = Vec::new();
    let ghost all = model::pair_views(env@);
    proof {
        assert(model::pair_views(out@) =~= by_name(all.take(0)));
    }
    let mut i: usize = 0;
    while i < env.len()
        invariant
            i <= env@.len(),
            all == model::pair_views(env@),
            model::pair_views(out@) == by_name(all.take(i as int)),
        decreases env@.len() - i,
    {
        proof {
            assert(all.take(i + 1).drop_last() =~= all.take(i as int));
            assert(all.take(i + 1).last() == (env@[i as int].0@, env@[i as int].1@));
        }
        set_variable(&mut out, env[i].0.as_str(), env[i].1.as_str());
        i += 1;
    }
    proof {
        assert(all.take(i as int) =~= all);
    }
    out
}

/// A variable has the value that it was given last; the others keep theirs.
pub proof fn law_the_last_value_counts(
    env: VariablesView,
    name: Seq<char>,
    value: Seq<char>,
    other: Seq<char>,
)
    ensures
        value_of(env.push((name, value)), name) == Some(value),
        other != name ==> value_of(env.push((name, value)), other) == value_of(env, other),
        value_of(Seq::empty(), name) is None,
{
    assert(env.push((name, value)).drop_last() =~= env);
}

} // verus!
