use vstd::prelude::*;
use crate::document::{emitted_text, lookup, Node};
use crate::loader::{
    apply, definition_entry, entry_args, excluded, globals_of, inherited, lemma_apply_concat, load,
    populated, step_entries, step_key,
};
use crate::operator_args::resolved;
use crate::text::{decimal, digits, lemma_digits_injective, lemma_digits_shape, strip_separators};

verus! {

/// A key that no entry of `s` has keeps what it had in `m`.
pub proof fn lemma_apply_untouched(
    m: Map<Seq<char>, Seq<char>>,
    s: Seq<(Seq<char>, Seq<char>)>,
    k: Seq<char>,
)
    requires
        forall|j: int| 0 <= j < s.len() ==> #[trigger] s[j].0 != k,
    ensures
        apply(m, s).contains_key(k) == m.contains_key(k),
        apply(m, s).contains_key(k) ==> apply(m, s)[k] == m[k],
    decreases s.len(),
{
    if s.len() > 0 {
        assert forall|j: int| 0 <= j < s.drop_last().len() implies #[trigger] s.drop_last()[j].0
            != k by {
            assert(s.drop_last()[j] == s[j]);
        }
        lemma_apply_untouched(m, s.drop_last(), k);
        assert(s[s.len() - 1].0 != k);
    }
}

/// The last entry of `s` with a given key decides its value.
pub proof fn lemma_apply_last(m: Map<Seq<char>, Seq<char>>, s: Seq<(Seq<char>, Seq<char>)>, j: int)
    requires
        0 <= j < s.len(),
        forall|l: int| j < l < s.len() ==> #[trigger] s[l].0 != s[j].0,
    ensures
        apply(m, s).contains_key(s[j].0),
        apply(m, s)[s[j].0] == s[j].1,
    decreases s.len(),
{
    if j < s.len() - 1 {
        let t = s.drop_last();
        assert forall|l: int| j < l < t.len() implies #[trigger] t[l].0 != t[j].0 by {
            assert(t[l] == s[l]);
        }
        lemma_apply_last(m, t, j);
        assert(s[s.len() - 1].0 != s[j].0);
    }
}

/// The step entries are one per step, in order.
pub proof fn lemma_step_entries(items: Seq<Node>)
    ensures
        step_entries(items).len() == items.len(),
        forall|i: int|
            0 <= i < items.len() ==> #[trigger] step_entries(items)[i] == (
                step_key(i),
                strip_separators(emitted_text(items[i])),
            ),
    decreases items.len(),
{
    if items.len() > 0 {
        lemma_step_entries(items.drop_last());
        assert forall|i: int| 0 <= i < items.len() implies #[trigger] step_entries(items)[i] == (
            step_key(i),
            strip_separators(emitted_text(items[i])),
        ) by {
            if i < items.len() - 1 {
                assert(items.drop_last()[i] == items[i]);
            }
        }
    }
}

/// Steps have distinct keys, and none of them is `_nsteps`.
pub proof fn lemma_step_keys(i: int, j: int)
    requires
        0 <= i,
        0 <= j,
    ensures
        step_key(i) == step_key(j) ==> i == j,
        step_key(i) != "_nsteps"@,
{
    reveal_strlit("_step_");
    reveal_strlit("_nsteps");
    assert(step_key(i)[1] == 's');
    assert("_nsteps"@[1] == 'n');
    if step_key(i) == step_key(j) {
        assert(step_key(i).subrange(6, step_key(i).len() as int) =~= digits(i as nat));
        assert(step_key(j).subrange(6, step_key(j).len() as int) =~= digits(j as nat));
        lemma_digits_injective(i as nat, j as nat);
    }
}

/// Loading a pipeline of `N` steps stores `N` in decimal under `_nsteps`,
/// to which `_nsteps` resolves, and the emitted text of step `i`, without
/// its separator line, under `_step_<i>`, for each `i` below `N`.
pub proof fn lemma_pipeline_steps(
    args: Map<Seq<char>, Seq<char>>,
    text: Seq<char>,
    docs: Seq<Node>,
    which: Seq<char>,
    items: Vec<Node>,
)
    requires
        args.dom().finite(),
        definition_entry(docs, which) is Ok,
        lookup(definition_entry(docs, which)->Ok_0.1, "steps"@) == Some(Node::Array(items)),
    ensures
        populated(args, text, docs, which).contains_key("_nsteps"@),
        populated(args, text, docs, which)["_nsteps"@] == decimal(items@.len() as int),
        resolved(populated(args, text, docs, which), "_nsteps"@, Seq::empty()) == decimal(
            items@.len() as int,
        ),
        forall|i: int|
            0 <= i < items@.len() ==> populated(args, text, docs, which).contains_key(
                #[trigger] step_key(i),
            ) && populated(args, text, docs, which)[step_key(i)] == strip_separators(
                emitted_text(items@[i]),
            ),
{
    let entry = definition_entry(docs, which)->Ok_0.1;
    let base = args.insert("_definition"@, text);
    let g = globals_of(entry);
    let count = seq![("_nsteps"@, decimal(items@.len() as int))];
    let steps = step_entries(items@);
    assert(entry_args(entry) == Ok::<Seq<(Seq<char>, Seq<char>)>, Seq<char>>(g + count + steps));
    let m = populated(args, text, docs, which);
    assert(m == apply(base, g + count + steps));
    lemma_apply_concat(base, g + count, steps);
    lemma_apply_concat(base, g, count);
    assert(count.drop_last() =~= Seq::<(Seq<char>, Seq<char>)>::empty());
    let before = apply(apply(base, g), count);
    assert(before == apply(apply(base, g), count.drop_last()).insert(count.last().0, count.last().1));
    lemma_step_entries(items@);
    assert forall|j: int| 0 <= j < steps.len() implies #[trigger] steps[j].0 != "_nsteps"@ by {
        lemma_step_keys(j, 0);
    }
    lemma_apply_untouched(before, steps, "_nsteps"@);
    assert forall|i: int| 0 <= i < items@.len() implies m.contains_key(#[trigger] step_key(i))
        && m[step_key(i)] == strip_separators(emitted_text(items@[i])) by {
        assert forall|l: int| i < l < steps.len() implies #[trigger] steps[l].0 != steps[i].0 by {
            lemma_step_keys(l, i);
        }
        lemma_apply_last(before, steps, i);
    }
    // `_nsteps` holds digits, which do not start with `^`
    lemma_digits_shape(items@.len() as nat);
    assert(m.dom().finite()) by {
        lemma_apply_finite(base, g + count + steps);
    }
    assert(m.len() > 0) by {
        if m.dom().len() == 0 {
            m.dom().lemma_len0_is_empty();
            assert(m.dom().contains("_nsteps"@));
        }
    }
}

/// Inserting entries into a finite map leaves it finite.
pub proof fn lemma_apply_finite(m: Map<Seq<char>, Seq<char>>, s: Seq<(Seq<char>, Seq<char>)>)
    requires
        m.dom().finite(),
    ensures
        apply(m, s).dom().finite(),
    decreases s.len(),
{
    if s.len() > 0 {
        lemma_apply_finite(m, s.drop_last());
    }
}

/// Whether loading `docs` for `which` writes the key `k`.
pub open spec fn sets_key(docs: Seq<Node>, which: Seq<char>, k: Seq<char>) -> bool {
    k == "_definition"@ || match load(docs, which) {
        Ok((_, s)) => exists|j: int| 0 <= j < s.len() && s[j].0 == k,
        Err(_) => k == "cause"@,
    }
}

/// A store derived from a parent never holds a key of the parent that
/// starts with `_` or is `inv` unless its own definition writes it, and
/// holds every other key of the parent, with the parent's value, unless its
/// own definition writes it.
pub proof fn lemma_inheritance(
    parent: Map<Seq<char>, Seq<char>>,
    text: Seq<char>,
    docs: Seq<Node>,
    which: Seq<char>,
    k: Seq<char>,
)
    requires
        !sets_key(docs, which, k),
    ensures
        excluded(k) ==> !populated(inherited(parent), text, docs, which).contains_key(k),
        !excluded(k) && parent.contains_key(k) ==> populated(
            inherited(parent),
            text,
            docs,
            which,
        ).contains_key(k) && populated(inherited(parent), text, docs, which)[k] == parent[k],
{
    let base = inherited(parent).insert("_definition"@, text);
    match load(docs, which) {
        Ok((_, s)) => {
            assert forall|j: int| 0 <= j < s.len() implies #[trigger] s[j].0 != k by {}
            lemma_apply_untouched(base, s, k);
        },
        Err(_) => {},
    }
}

} // verus!
