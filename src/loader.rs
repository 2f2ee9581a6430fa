use vstd::prelude::*;
use crate::document::{
    documents_of, emit_document, emitted_text, is_bad, load_documents, lookup, lookup_key,
    Node,
};
use crate::operator_args::OperatorArgs;
use crate::string_map::map_of;
use crate::text::{
    begins_with, decimal, signed_text, starts_with, strip_separators, unsigned_text,
    without_separators,
};

verus! {

/// `m` after inserting the entries of `s` in order.
pub open spec fn apply(m: Map<Seq<char>, Seq<char>>, s: Seq<(Seq<char>, Seq<char>)>) -> Map<
    Seq<char>,
    Seq<char>,
>
    decreases s.len(),
{
    if s.len() == 0 {
        m
    } else {
        apply(m, s.drop_last()).insert(s.last().0, s.last().1)
    }
}

/// The text of a scalar node; empty for any other node.
pub open spec fn scalar_text(n: Node) -> Seq<char> {
    match n {
        Node::Integer(i) => decimal(i as int),
        Node::Real(s) => s@,
        Node::Text(s) => s@,
        Node::Boolean(b) => if b {
            "true"@
        } else {
            "false"@
        },
        _ => Seq::empty(),
    }
}

/// The argument that a mapping entry gives: its key must be text (other than
/// `inv` where `skip_inv`), and its value a scalar with non-empty text.
pub open spec fn scalar_entry(e: (Node, Node), skip_inv: bool) -> Option<(Seq<char>, Seq<char>)> {
    match e.0 {
        Node::Text(k) => if (skip_inv && k@ == "inv"@) || scalar_text(e.1).len() == 0 {
            None
        } else {
            Some((k@, scalar_text(e.1)))
        },
        _ => None,
    }
}

/// The arguments that the entries of a mapping give, in order.
pub open spec fn scalar_entries(s: Seq<(Node, Node)>, skip_inv: bool) -> Seq<(Seq<char>, Seq<char>)>
    decreases s.len(),
{
    if s.len() == 0 {
        Seq::empty()
    } else {
        match scalar_entry(s.last(), skip_inv) {
            Some(p) => scalar_entries(s.drop_last(), skip_inv).push(p),
            None => scalar_entries(s.drop_last(), skip_inv),
        }
    }
}

/// The key under which step `i` of a pipeline is stored.
pub open spec fn step_key(i: int) -> Seq<char> {
    "_step_"@ + decimal(i)
}

/// The stored text of each step: its emitted text without the separator.
pub open spec fn step_entries(items: Seq<Node>) -> Seq<(Seq<char>, Seq<char>)>
    decreases items.len(),
{
    if items.len() == 0 {
        Seq::empty()
    } else {
        step_entries(items.drop_last()).push(
            (step_key(items.len() - 1), strip_separators(emitted_text(items.last()))),
        )
    }
}

/// The index of the first document that has `key`.
pub open spec fn first_with_key(docs: Seq<Node>, key: Seq<char>) -> Option<int>
    decreases docs.len(),
{
    if docs.len() == 0 {
        None
    } else {
        match first_with_key(docs.drop_last(), key) {
            Some(i) => Some(i),
            None => if !is_bad(lookup(docs.last(), key)) {
                Some(docs.len() - 1)
            } else {
                None
            },
        }
    }
}

/// The document to load: the first one where `which` is empty, else the
/// first that has `which`.
pub open spec fn select_document(docs: Seq<Node>, which: Seq<char>) -> Option<int> {
    if which.len() == 0 {
        if docs.len() > 0 {
            Some(0)
        } else {
            None
        }
    } else {
        first_with_key(docs, which)
    }
}

/// The single root key that does not start with `_` (empty where there is
/// none), or why the root cannot be read.
pub open spec fn root_scan(s: Seq<(Node, Node)>) -> Result<Seq<char>, Seq<char>>
    decreases s.len(),
{
    if s.len() == 0 {
        Ok(Seq::empty())
    } else {
        match root_scan(s.drop_last()) {
            Err(c) => Err(c),
            Ok(found) => if s.last().1 is BadValue {
                Err("Cannot parse definition"@)
            } else {
                match s.last().0 {
                    Node::Text(k) => if starts_with(k@, '_') {
                        Ok(found)
                    } else if found.len() > 0 {
                        Err("Too many items in definition root"@)
                    } else {
                        Ok(k@)
                    },
                    _ => Ok(found),
                }
            },
        }
    }
}

/// The arguments of the globals of a definition entry.
pub open spec fn globals_of(entry: Node) -> Seq<(Seq<char>, Seq<char>)> {
    match lookup(entry, "globals"@) {
        Some(Node::Hash(g)) => scalar_entries(g@, true),
        _ => Seq::empty(),
    }
}

/// The arguments of the definition entry `entry`: a pipeline where it has a
/// sequence of steps, a plain operator where it is a mapping.
pub open spec fn entry_args(entry: Node) -> Result<Seq<(Seq<char>, Seq<char>)>, Seq<char>> {
    match lookup(entry, "steps"@) {
        Some(Node::Array(items)) => Ok(
            globals_of(entry) + seq![("_nsteps"@, decimal(items@.len() as int))] + step_entries(
                items@,
            ),
        ),
        _ => match entry {
            Node::Hash(es) => Ok(globals_of(entry) + scalar_entries(es@, false)),
            _ => Err("Cannot read args"@),
        },
    }
}

/// The name and the entry of the definition to load, or why there is none.
pub open spec fn definition_entry(docs: Seq<Node>, which: Seq<char>) -> Result<(Seq<char>, Node), Seq<char>> {
    match select_document(docs, which) {
        None => Err("Cannot locate definition"@),
        Some(i) => match docs[i] {
            Node::Hash(root) => {
                let name = if which.len() > 0 {
                    Ok(which)
                } else {
                    root_scan(root@)
                };
                match name {
                    Err(c) => Err(c),
                    Ok(name) => match lookup(docs[i], name) {
                        Some(entry) => if entry is BadValue {
                            Err("Cannot locate definition"@)
                        } else {
                            Ok((name, entry))
                        },
                        None => Err("Cannot locate definition"@),
                    },
                }
            },
            _ => Err("Cannot parse definition"@),
        },
    }
}

/// What loading `docs` for `which` comes to: the name and the arguments of
/// the definition, in the order they are inserted, or the cause of failure.
pub open spec fn load(docs: Seq<Node>, which: Seq<char>) -> Result<
    (Seq<char>, Seq<(Seq<char>, Seq<char>)>),
    Seq<char>,
> {
    match definition_entry(docs, which) {
        Err(c) => Err(c),
        Ok((name, entry)) => match entry_args(entry) {
            Ok(s) => Ok((name, s)),
            Err(c) => Err(c),
        },
    }
}

/// The arguments after loading `docs` for `which` on top of `args`, with the
/// definition text `text`.
pub open spec fn populated(
    args: Map<Seq<char>, Seq<char>>,
    text: Seq<char>,
    docs: Seq<Node>,
    which: Seq<char>,
) -> Map<Seq<char>, Seq<char>> {
    match load(docs, which) {
        Ok((_, s)) => apply(args.insert("_definition"@, text), s),
        Err(c) => args.insert("_definition"@, text).insert("cause"@, c),
    }
}

/// The name after loading `docs` for `which`: `badvalue` on failure.
pub open spec fn loaded_name(docs: Seq<Node>, which: Seq<char>) -> Seq<char> {
    match load(docs, which) {
        Ok((name, _)) => name,
        Err(_) => "badvalue"@,
    }
}

/// Whether a key of a parent store stays out of what a step inherits.
pub open spec fn excluded(k: Seq<char>) -> bool {
    starts_with(k, '_') || k == "inv"@
}

/// The arguments that a store inherits from a parent with arguments `m`.
pub open spec fn inherited(m: Map<Seq<char>, Seq<char>>) -> Map<Seq<char>, Seq<char>> {
    Map::new(|k: Seq<char>| m.contains_key(k) && !excluded(k), |k: Seq<char>| m[k])
}

/// Inserting two runs of entries is inserting the one after the other.
pub proof fn lemma_apply_concat(
    m: Map<Seq<char>, Seq<char>>,
    a: Seq<(Seq<char>, Seq<char>)>,
    b: Seq<(Seq<char>, Seq<char>)>,
)
    ensures
        apply(m, a + b) == apply(apply(m, a), b),
    decreases b.len(),
{
    if b.len() == 0 {
        assert(a + b =~= a);
    } else {
        assert((a + b).drop_last() =~= a + b.drop_last());
        lemma_apply_concat(m, a, b.drop_last());
    }
}

/// The text of a scalar node; empty for any other node.
pub fn scalar_text_of(n: &Node) -> (r: String)
    ensures
        r@ == scalar_text(*n),
{
    match n {
        Node::Integer(i) => signed_text(*i),
        Node::Real(s) => s.clone(),
        Node::Text(s) => s.clone(),
        Node::Boolean(b) => if *b {
            "true".to_owned()
        } else {
            "false".to_owned()
        },
        _ => String::new(),
    }
}

/// A result found in a prefix stands for the whole.
proof fn lemma_first_with_key_prefix(docs: Seq<Node>, key: Seq<char>, n: int)
    requires
        0 <= n <= docs.len(),
        first_with_key(docs.take(n), key) is Some,
    ensures
        first_with_key(docs, key) == first_with_key(docs.take(n), key),
    decreases docs.len() - n,
{
    if n < docs.len() {
        assert(docs.take(n + 1).drop_last() =~= docs.take(n));
        lemma_first_with_key_prefix(docs, key, n + 1);
    } else {
        assert(docs.take(n) =~= docs);
    }
}

/// A failure found in a prefix stands for the whole.
proof fn lemma_root_scan_prefix(s: Seq<(Node, Node)>, n: int)
    requires
        0 <= n <= s.len(),
        root_scan(s.take(n)) is Err,
    ensures
        root_scan(s) == root_scan(s.take(n)),
    decreases s.len() - n,
{
    if n < s.len() {
        assert(s.take(n + 1).drop_last() =~= s.take(n));
        lemma_root_scan_prefix(s, n + 1);
    } else {
        assert(s.take(n) =~= s);
    }
}

/// The document to load for `which`.
pub fn select_document_index(docs: &Vec<Node>, which: &str) -> (r: Option<usize>)
    ensures
        match r {
            Some(i) => i < docs.len() && select_document(docs@, which@) == Some(i as int),
            None => select_document(docs@, which@) is None,
        },
{
    if which.unicode_len() == 0 {
        if docs.len() > 0 {
            return Some(0);
        } else {
            return None;
        }
    }
    let mut i: usize = 0;
    while i < docs.len()
        invariant
            i <= docs.len(),
            which@.len() > 0,
            first_with_key(docs@.take(i as int), which@) is None,
        decreases docs.len() - i,
    {
        assert(docs@.take(i + 1).drop_last() =~= docs@.take(i as int));
        assert(docs@.take(i + 1).last() == docs@[i as int]);
        let found = match lookup_key(&docs[i], which) {
            Some(v) => match v {
                Node::BadValue => false,
                _ => true,
            },
            None => false,
        };
        if found {
            proof {
                lemma_first_with_key_prefix(docs@, which@, i + 1);
            }
            return Some(i);
        }
        i = i + 1;
    }
    assert(docs@.take(i as int) =~= docs@);
    None
}

/// The single root key that does not start with `_`, or why the root cannot
/// be read.
pub fn root_name(root: &Vec<(Node, Node)>) -> (r: Result<String, String>)
    ensures
        match r {
            Ok(name) => root_scan(root@) == Ok::<Seq<char>, Seq<char>>(name@),
            Err(c) => root_scan(root@) == Err::<Seq<char>, Seq<char>>(c@),
        },
{
    let mut found = String::new();
    let mut i: usize = 0;
    assert(root@.take(0) =~= Seq::<(Node, Node)>::empty());
    while i < root.len()
        invariant
            i <= root.len(),
            root_scan(root@.take(i as int)) == Ok::<Seq<char>, Seq<char>>(found@),
        decreases root.len() - i,
    {
        assert(root@.take(i + 1).drop_last() =~= root@.take(i as int));
        assert(root@.take(i + 1).last() == root@[i as int]);
        if let Node::BadValue = &root[i].1 {
            proof {
                lemma_root_scan_prefix(root@, i + 1);
            }
            return Err("Cannot parse definition".to_owned());
        }
        if let Node::Text(k) = &root[i].0 {
            if !begins_with(k.as_str(), '_') {
                if found.unicode_len() > 0 {
                    proof {
                        lemma_root_scan_prefix(root@, i + 1);
                    }
                    return Err("Too many items in definition root".to_owned());
                }
                found = k.clone();
            }
        }
        i = i + 1;
    }
    assert(root@.take(i as int) =~= root@);
    Ok(found)
}

impl OperatorArgs {
    /// Records a failure to load: the name becomes `badvalue` and `cause`
    /// holds why.
    fn badvalue(&mut self, cause: &str) -> (r: bool)
        ensures
            !r,
            final(self).name@ == "badvalue"@,
            final(self).args@ == old(self).args@.insert("cause"@, cause@),
            final(self).used == old(self).used,
            final(self).all_used == old(self).all_used,
    {
        self.name = "badvalue".to_owned();
        self.insert("cause", cause);
        false
    }

    /// Inserts the arguments that the entries of a mapping give.
    fn insert_scalars(&mut self, entries: &Vec<(Node, Node)>, skip_inv: bool)
        ensures
            final(self).args@ == apply(old(self).args@, scalar_entries(entries@, skip_inv)),
            final(self).name == old(self).name,
            final(self).used == old(self).used,
            final(self).all_used == old(self).all_used,
    {
        let inv = "inv".to_owned();
        let mut i: usize = 0;
        assert(entries@.take(0) =~= Seq::<(Node, Node)>::empty());
        while i < entries.len()
            invariant
                i <= entries.len(),
                inv@ == "inv"@,
                self.args@ == apply(old(self).args@, scalar_entries(entries@.take(i as int), skip_inv)),
                self.name == old(self).name,
                self.used == old(self).used,
                self.all_used == old(self).all_used,
            decreases entries.len() - i,
        {
            assert(entries@.take(i + 1).drop_last() =~= entries@.take(i as int));
            assert(entries@.take(i + 1).last() == entries@[i as int]);
            if let Node::Text(k) = &entries[i].0 {
                if !(skip_inv && *k == inv) {
                    let t = scalar_text_of(&entries[i].1);
                    if t.as_str().unicode_len() > 0 {
                        self.insert(k.as_str(), t.as_str());
                    }
                }
            }
            proof {
                let prev = scalar_entries(entries@.take(i as int), skip_inv);
                if let Some(p) = scalar_entry(entries@[i as int], skip_inv) {
                    assert(prev.push(p).drop_last() =~= prev);
                }
            }
            i = i + 1;
        }
        assert(entries@.take(i as int) =~= entries@);
    }

    /// Inserts the text of each step of a pipeline under its step key.
    fn insert_steps(&mut self, items: &Vec<Node>)
        ensures
            final(self).args@ == apply(old(self).args@, step_entries(items@)),
            final(self).name == old(self).name,
            final(self).used == old(self).used,
            final(self).all_used == old(self).all_used,
    {
        let mut i: usize = 0;
        assert(items@.take(0) =~= Seq::<Node>::empty());
        while i < items.len()
            invariant
                i <= items.len(),
                self.args@ == apply(old(self).args@, step_entries(items@.take(i as int))),
                self.name == old(self).name,
                self.used == old(self).used,
                self.all_used == old(self).all_used,
            decreases items.len() - i,
        {
            assert(items@.take(i + 1).drop_last() =~= items@.take(i as int));
            assert(items@.take(i + 1).last() == items@[i as int]);
            let mut key = "_step_".to_owned();
            key.append(unsigned_text(i as u64).as_str());
            let emitted = emit_document(&items[i]);
            let text = without_separators(emitted.as_str());
            self.insert(key.as_str(), text.as_str());
            proof {
                let prev = step_entries(items@.take(i as int));
                assert(key@ == step_key(i as int));
                assert(prev.push((key@, text@)).drop_last() =~= prev);
            }
            i = i + 1;
        }
        assert(items@.take(i as int) =~= items@);
    }

    /// Loads the definition `which` (the only one, where `which` is empty)
    /// from the parsed documents `docs` of the text `definition`.
    ///
    /// Stores `definition` under `_definition`. A plain operator gives its
    /// scalar arguments; a pipeline gives `_nsteps` and the text of each step
    /// under `_step_<i>`; the globals of either come first. On failure the
    /// name is `badvalue`, `cause` says why, and the result is `false`.
    pub fn populate_from_documents(&mut self, definition: &str, docs: &Vec<Node>, which: &str) -> (r: bool)
        ensures
            r == load(docs@, which@) is Ok,
            final(self).args@ == populated(old(self).args@, definition@, docs@, which@),
            final(self).name@ == loaded_name(docs@, which@),
            final(self).used == old(self).used,
            final(self).all_used == old(self).all_used,
    {
        self.insert("_definition", definition);
        let index = select_document_index(docs, which);
        let i = match index {
            Some(i) => i,
            None => {
                return self.badvalue("Cannot locate definition");
            },
        };
        let doc = &docs[i];
        let root = match doc {
            Node::Hash(root) => root,
            _ => {
                return self.badvalue("Cannot parse definition");
            },
        };
        let main_name = if which.unicode_len() > 0 {
            which.to_owned()
        } else {
            match root_name(root) {
                Ok(n) => n,
                Err(c) => {
                    return self.badvalue(c.as_str());
                },
            }
        };
        self.name = main_name.clone();
        let entry = match lookup_key(doc, main_name.as_str()) {
            Some(e) => match e {
                Node::BadValue => {
                    return self.badvalue("Cannot locate definition");
                },
                _ => e,
            },
            None => {
                return self.badvalue("Cannot locate definition");
            },
        };
        let ghost base = self.args@;
        if let Some(Node::Hash(g)) = lookup_key(entry, "globals") {
            self.insert_scalars(g, true);
        }
        let ghost with_globals = self.args@;
        assert(with_globals == apply(base, globals_of(*entry)));
        if let Some(Node::Array(items)) = lookup_key(entry, "steps") {
            let n = unsigned_text(items.len() as u64);
            assert(n@ == decimal(items@.len() as int));
            self.insert("_nsteps", n.as_str());
            let ghost count = seq![("_nsteps"@, decimal(items@.len() as int))];
            assert(count.drop_last() =~= Seq::<(Seq<char>, Seq<char>)>::empty());
            assert(apply(with_globals, count) == apply(with_globals, count.drop_last()).insert(
                count.last().0,
                count.last().1,
            ));
            assert(self.args@ == apply(with_globals, count));
            self.insert_steps(items);
            proof {
                lemma_apply_concat(base, globals_of(*entry), count);
                lemma_apply_concat(base, globals_of(*entry) + count, step_entries(items@));
            }
            return true;
        }
        match entry {
            Node::Hash(es) => {
                self.insert_scalars(es, false);
                proof {
                    lemma_apply_concat(base, globals_of(*entry), scalar_entries(es@, false));
                }
                true
            },
            _ => self.badvalue("Cannot read args"),
        }
    }

    /// Parses `definition` and loads the definition `which` from it (the
    /// only one, where `which` is empty), as `populate_from_documents` does.
    /// Text that does not parse leaves the store as it was and gives the
    /// parser's message.
    pub fn populate(&mut self, definition: &str, which: &str) -> (r: Result<bool, String>)
        ensures
            match documents_of(definition@) {
                None => r is Err && *final(self) == *old(self),
                Some(docs) => r == Ok::<bool, String>(load(docs, which@) is Ok) && final(self).args@
                    == populated(old(self).args@, definition@, docs, which@) && final(self).name@
                    == loaded_name(docs, which@) && final(self).used == old(self).used
                    && final(self).all_used == old(self).all_used,
            },
    {
        match load_documents(definition) {
            Ok(docs) => Ok(self.populate_from_documents(definition, &docs, which)),
            Err(e) => Err(e),
        }
    }

    /// A store that inherits the arguments of `existing`, but for those whose
    /// key starts with `_` and `inv`, and then loads `which` from
    /// `definition` on top of them.
    pub fn with_globals_from(existing: &OperatorArgs, definition: &str, which: &str) -> (r: Result<
        OperatorArgs,
        String,
    >)
        ensures
            match documents_of(definition@) {
                None => r is Err,
                Some(docs) => r matches Ok(oa) && oa.args@ == populated(
                    inherited(existing.args@),
                    definition@,
                    docs,
                    which@,
                ) && oa.name@ == loaded_name(docs, which@) && oa.used@ == Map::<
                    Seq<char>,
                    Seq<char>,
                >::empty() && oa.all_used@ == Map::<Seq<char>, Seq<char>>::empty(),
            },
    {
        let mut oa = OperatorArgs::new();
        oa.inherit_from(existing);
        match oa.populate(definition, which) {
            Ok(_) => Ok(oa),
            Err(e) => Err(e),
        }
    }

    /// Copies the arguments of `existing` that are inherited.
    fn inherit_from(&mut self, existing: &OperatorArgs)
        requires
            old(self).args@ == Map::<Seq<char>, Seq<char>>::empty(),
        ensures
            final(self).args@ == inherited(existing.args@),
            final(self).name == old(self).name,
            final(self).used == old(self).used,
            final(self).all_used == old(self).all_used,
    {
        let n = existing.args.len();
        let ghost pairs = existing.args.pairs();
        let inv = "inv".to_owned();
        let mut i: usize = 0;
        assert(inherited(map_of(pairs.take(0))) =~= Map::<Seq<char>, Seq<char>>::empty());
        while i < n
            invariant
                n == pairs.len(),
                pairs == existing.args.pairs(),
                i <= n,
                inv@ == "inv"@,
                self.args@ == inherited(map_of(pairs.take(i as int))),
                self.name == old(self).name,
                self.used == old(self).used,
                self.all_used == old(self).all_used,
            decreases n - i,
        {
            let key = existing.args.key_at(i);
            let value = existing.args.value_at(i);
            if !(begins_with(key.as_str(), '_') || *key == inv) {
                self.insert(key.as_str(), value.as_str());
            }
            proof {
                assert(pairs.take(i + 1).drop_last() =~= pairs.take(i as int));
                assert(self.args@ =~= inherited(map_of(pairs.take(i + 1))));
            }
            i = i + 1;
        }
        assert(pairs.take(n as int) =~= pairs);
    }
}

} // verus!
