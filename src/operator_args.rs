use vstd::prelude::*;
use crate::string_map::StringMap;
use crate::text::{begins_with, starts_with};

verus! {

/// Whether the value `v` refers to another key.
pub open spec fn is_indirect(v: Seq<char>) -> bool {
    starts_with(v, '^')
}

/// What `key` resolves to in `args`, following at most `hops` indirections;
/// `default` where a key on the way is absent or the hops run out.
pub open spec fn resolve(
    args: Map<Seq<char>, Seq<char>>,
    key: Seq<char>,
    default: Seq<char>,
    hops: nat,
) -> Seq<char>
    decreases hops,
{
    if !args.contains_key(key) || hops == 0 {
        default
    } else if is_indirect(args[key]) {
        resolve(args, args[key].drop_first(), default, (hops - 1) as nat)
    } else {
        args[key]
    }
}

/// The raw values met while resolving `key`, by the key they were found under.
pub open spec fn trail(args: Map<Seq<char>, Seq<char>>, key: Seq<char>, hops: nat) -> Map<
    Seq<char>,
    Seq<char>,
>
    decreases hops,
{
    if !args.contains_key(key) || hops == 0 {
        Map::empty()
    } else if is_indirect(args[key]) {
        map![key => args[key]].union_prefer_right(trail(args, args[key].drop_first(), (hops - 1) as nat))
    } else {
        map![key => args[key]]
    }
}

/// What `key` resolves to in `args`. A chain of indirections that visits
/// every key and still goes on has come back to a key it passed: it is a
/// cycle, and resolves to `default`.
pub open spec fn resolved(args: Map<Seq<char>, Seq<char>>, key: Seq<char>, default: Seq<char>) -> Seq<char> {
    resolve(args, key, default, args.len())
}

/// The raw values met while resolving `key` in `args`.
pub open spec fn resolution_trail(args: Map<Seq<char>, Seq<char>>, key: Seq<char>) -> Map<Seq<char>, Seq<char>> {
    trail(args, key, args.len())
}

/// The flat argument store of one operator or pipeline: its name, its
/// arguments, the keys that were read (with what they resolved to), and
/// every key met while resolving (with its raw value).
pub struct OperatorArgs {
    pub name: String,
    pub args: StringMap,
    pub used: StringMap,
    pub all_used: StringMap,
}

impl OperatorArgs {
    /// An empty store with an empty name.
    pub fn new() -> (r: OperatorArgs)
        ensures
            r.name@.len() == 0,
            r.args@ == Map::<Seq<char>, Seq<char>>::empty(),
            r.used@ == Map::<Seq<char>, Seq<char>>::empty(),
            r.all_used@ == Map::<Seq<char>, Seq<char>>::empty(),
    {
        OperatorArgs {
            name: String::new(),
            args: StringMap::new(),
            used: StringMap::new(),
            all_used: StringMap::new(),
        }
    }

    /// An empty store that holds the global default `ellps: GRS80`.
    pub fn global_defaults() -> (r: OperatorArgs)
        ensures
            r.name@.len() == 0,
            r.args@ == Map::<Seq<char>, Seq<char>>::empty().insert("ellps"@, "GRS80"@),
            r.used@ == Map::<Seq<char>, Seq<char>>::empty(),
            r.all_used@ == Map::<Seq<char>, Seq<char>>::empty(),
    {
        let mut op = OperatorArgs::new();
        op.insert("ellps", "GRS80");
        op
    }

    /// Sets the name.
    pub fn name(&mut self, name: &str)
        ensures
            final(self).name@ == name@,
            final(self).args == old(self).args,
            final(self).used == old(self).used,
            final(self).all_used == old(self).all_used,
    {
        self.name = name.to_owned();
    }

    /// Sets `key` to `value`, replacing what was there.
    pub fn insert(&mut self, key: &str, value: &str)
        ensures
            final(self).args@ == old(self).args@.insert(key@, value@),
            final(self).name == old(self).name,
            final(self).used == old(self).used,
            final(self).all_used == old(self).all_used,
    {
        self.args.insert(key, value);
    }

    /// Copies every argument of `additional` into this store, replacing what
    /// was there under the same key.
    pub fn append(&mut self, additional: &OperatorArgs)
        ensures
            final(self).args@ == old(self).args@.union_prefer_right(additional.args@),
            final(self).name == old(self).name,
            final(self).used == old(self).used,
            final(self).all_used == old(self).all_used,
    {
        let n = additional.args.len();
        let ghost pairs = additional.args.pairs();
        let mut i: usize = 0;
        while i < n
            invariant
                n == pairs.len(),
                pairs == additional.args.pairs(),
                i <= n,
                self.args@ == old(self).args@.union_prefer_right(
                    crate::string_map::map_of(pairs.take(i as int)),
                ),
                self.name == old(self).name,
                self.used == old(self).used,
                self.all_used == old(self).all_used,
            decreases n - i,
        {
            let key = additional.args.key_at(i);
            let value = additional.args.value_at(i);
            self.insert(key.as_str(), value.as_str());
            proof {
                assert(pairs.take(i + 1).drop_last() =~= pairs.take(i as int));
                assert(self.args@ =~= old(self).args@.union_prefer_right(
                    crate::string_map::map_of(pairs.take(i + 1)),
                ));
            }
            i = i + 1;
        }
        assert(pairs.take(n as int) =~= pairs);
    }

    /// Resolves `key`, following at most `hops` indirections, and records
    /// each raw value met in `all_used`.
    fn value_recursive_search(&mut self, key: &str, default: &str, hops: usize) -> (r: String)
        ensures
            r@ == resolve(old(self).args@, key@, default@, hops as nat),
            final(self).all_used@ == old(self).all_used@.union_prefer_right(
                trail(old(self).args@, key@, hops as nat),
            ),
            final(self).args == old(self).args,
            final(self).name == old(self).name,
            final(self).used == old(self).used,
        decreases hops,
    {
        if hops == 0 {
            assert(old(self).all_used@.union_prefer_right(Map::empty()) =~= old(self).all_used@);
            return default.to_owned();
        }
        match self.args.get(key) {
            None => {
                assert(old(self).all_used@.union_prefer_right(Map::empty()) =~= old(self).all_used@);
                default.to_owned()
            },
            Some(arg) => {
                self.all_used.insert(key, arg.as_str());
                if begins_with(arg.as_str(), '^') {
                    let rest = arg.as_str().substring_char(1, arg.as_str().unicode_len());
                    assert(rest@ =~= arg@.drop_first());
                    let r = self.value_recursive_search(rest, default, hops - 1);
                    assert(final(self).all_used@ =~= old(self).all_used@.union_prefer_right(
                        trail(old(self).args@, key@, hops as nat),
                    ));
                    r
                } else {
                    assert(self.all_used@ =~= old(self).all_used@.union_prefer_right(
                        trail(old(self).args@, key@, hops as nat),
                    ));
                    arg
                }
            },
        }
    }

    /// Returns what `key` resolves to, or `default`. Records the raw value of
    /// every key met on the way in `all_used`, and the result under `key` in
    /// `used` where it differs from `default`.
    pub fn value(&mut self, key: &str, default: &str) -> (r: String)
        ensures
            r@ == resolved(old(self).args@, key@, default@),
            final(self).all_used@ == old(self).all_used@.union_prefer_right(
                resolution_trail(old(self).args@, key@),
            ),
            final(self).used@ == (if r@ != default@ {
                old(self).used@.insert(key@, r@)
            } else {
                old(self).used@
            }),
            final(self).args == old(self).args,
            final(self).name == old(self).name,
            // a key that is absent gives the default and is recorded nowhere
            !old(self).args@.contains_key(key@) ==> r@ == default@ && final(self).used@
                == old(self).used@ && final(self).all_used@ == old(self).all_used@,
            // a key with a direct value gives that value, recorded under the key
            old(self).args@.contains_key(key@) && !is_indirect(old(self).args@[key@]) ==> r@
                == old(self).args@[key@] && final(self).all_used@ == old(self).all_used@.insert(
                key@,
                old(self).args@[key@],
            ) && (r@ != default@ ==> final(self).used@ == old(self).used@.insert(key@, r@)),
    {
        let hops = self.args.len();
        let r = self.value_recursive_search(key, default, hops);
        let d = default.to_owned();
        if r != d {
            self.used.insert(key, r.as_str());
        }
        proof {
            let a = old(self).args@;
            if !a.contains_key(key@) {
                assert(old(self).all_used@.union_prefer_right(Map::empty()) =~= old(self).all_used@);
            } else if !is_indirect(a[key@]) {
                assert(old(self).args@.contains_key(key@));
                assert(hops > 0);
                assert(old(self).all_used@.union_prefer_right(map![key@ => a[key@]])
                    =~= old(self).all_used@.insert(key@, a[key@]));
            }
        }
        r
    }

    /// Whether `key` is set: false where it is absent or resolves to
    /// `false`, true otherwise.
    pub fn flag(&mut self, key: &str) -> (r: bool)
        ensures
            r == (resolved(old(self).args@, key@, "false"@) != "false"@),
            final(self).all_used@ == old(self).all_used@.union_prefer_right(
                resolution_trail(old(self).args@, key@),
            ),
            final(self).used@ == (if r {
                old(self).used@.insert(key@, resolved(old(self).args@, key@, "false"@))
            } else {
                old(self).used@
            }),
            final(self).args == old(self).args,
            final(self).name == old(self).name,
            !old(self).args@.contains_key(key@) ==> !r,
            old(self).args@.contains_key(key@) && old(self).args@[key@] == "false"@ ==> !r,
            old(self).args@.contains_key(key@) && !is_indirect(old(self).args@[key@])
                && old(self).args@[key@] != "false"@ ==> r,
    {
        let v = self.value(key, "false");
        let f = "false".to_owned();
        proof {
            reveal_strlit("false");
        }
        v != f
    }

    /// The text of a numeric argument: `None` where `key` resolves to nothing
    /// (so the caller's default applies), else the text to read as a number.
    /// Records usage as `value(key, "")` does.
    pub fn numeric_arg(&mut self, key: &str) -> (r: Option<String>)
        ensures
            match r {
                Some(t) => t@ == resolved(old(self).args@, key@, Seq::empty()) && t@.len() > 0,
                None => resolved(old(self).args@, key@, Seq::empty()).len() == 0,
            },
            final(self).all_used@ == old(self).all_used@.union_prefer_right(
                resolution_trail(old(self).args@, key@),
            ),
            final(self).used@ == (if resolved(old(self).args@, key@, Seq::empty()).len() > 0 {
                old(self).used@.insert(key@, resolved(old(self).args@, key@, Seq::empty()))
            } else {
                old(self).used@
            }),
            final(self).args == old(self).args,
            final(self).name == old(self).name,
    {
        let empty = String::new();
        let arg = self.value(key, empty.as_str());
        assert(arg@.len() == 0 ==> arg@ =~= Seq::<char>::empty());
        if arg.as_str().unicode_len() == 0 {
            None
        } else {
            Some(arg)
        }
    }

    /// The message for an argument whose text is no number.
    pub fn numeric_error(operator_name: &str, key: &str, raw: &str) -> (r: String)
        ensures
            r@ == "Numeric value expected for '"@ + operator_name@ + "."@ + key@ + "' - got ["@
                + key@ + ": "@ + raw@ + "]."@,
    {
        let mut r = "Numeric value expected for '".to_owned();
        r.append(operator_name);
        r.append(".");
        r.append(key);
        r.append("' - got [");
        r.append(key);
        r.append(": ");
        r.append(raw);
        r.append("].");
        r
    }
}

} // verus!
