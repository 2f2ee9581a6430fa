use vstd::prelude::*;
use yaml_rust::{Yaml, YamlEmitter, YamlLoader};

verus! {

/// A node of a parsed structured document: a scalar, a sequence, or a mapping
/// whose entries are kept in document order.
#[derive(Debug)]
pub enum Node {
    Real(String),
    Integer(i64),
    Text(String),
    Boolean(bool),
    Array(Vec<Node>),
    Hash(Vec<(Node, Node)>),
    Alias(usize),
    Null,
    BadValue,
}

/// A node as `yaml_rust` holds it, carried through the conversions only.
#[verifier::external_type_specification]
#[verifier::external_body]
pub struct ExYaml(Yaml);

/// The documents that a parse of `text` gives, or `None` where the text does
/// not parse.
pub uninterp spec fn documents_of(text: Seq<char>) -> Option<Seq<Node>>;

/// The text that the emitter writes for `n` as a document of its own.
pub uninterp spec fn emitted_text(n: Node) -> Seq<char>;

/// Relies on `yaml_rust::YamlLoader::load_from_str`: the documents of `text`,
/// or the scanner's error; the outcome depends on the text alone.
#[verifier::external_body]
pub(crate) fn load_documents(text: &str) -> (r: Result<Vec<Node>, String>)
    ensures
        match r {
            Ok(docs) => documents_of(text@) == Some(docs@),
            Err(_) => documents_of(text@) is None,
        },
{
    match YamlLoader::load_from_str(text) {
        Ok(docs) => Ok(docs.iter().map(node_from_yaml).collect()),
        Err(e) => Err(e.to_string()),
    }
}

/// Relies on `yaml_rust::YamlEmitter::dump`: the node written as a document;
/// writing into a `String` does not fail.
#[verifier::external_body]
pub(crate) fn emit_document(n: &Node) -> (r: String)
    ensures
        r@ == emitted_text(*n),
{
    let mut out = String::new();
    let mut emitter = YamlEmitter::new(&mut out);
    let _ = emitter.dump(&yaml_from_node(n));
    out
}

/// Converts a `yaml_rust` node into a `Node`, variant for variant.
#[verifier::external_body]
fn node_from_yaml(y: &Yaml) -> Node {
    match y {
        Yaml::Real(s) => Node::Real(s.clone()),
        Yaml::Integer(i) => Node::Integer(*i),
        Yaml::String(s) => Node::Text(s.clone()),
        Yaml::Boolean(b) => Node::Boolean(*b),
        Yaml::Array(v) => Node::Array(v.iter().map(node_from_yaml).collect()),
        Yaml::Hash(h) => Node::Hash(h.iter().map(|(k, v)| (node_from_yaml(k), node_from_yaml(v))).collect()),
        Yaml::Alias(a) => Node::Alias(*a),
        Yaml::Null => Node::Null,
        Yaml::BadValue => Node::BadValue,
    }
}

/// Converts a `Node` back into a `yaml_rust` node, variant for variant.
#[verifier::external_body]
fn yaml_from_node(n: &Node) -> Yaml {
    match n {
        Node::Real(s) => Yaml::Real(s.clone()),
        Node::Integer(i) => Yaml::Integer(*i),
        Node::Text(s) => Yaml::String(s.clone()),
        Node::Boolean(b) => Yaml::Boolean(*b),
        Node::Array(v) => Yaml::Array(v.iter().map(yaml_from_node).collect()),
        Node::Hash(h) => Yaml::Hash(h.iter().map(|(k, v)| (yaml_from_node(k), yaml_from_node(v))).collect()),
        Node::Alias(a) => Yaml::Alias(*a),
        Node::Null => Yaml::Null,
        Node::BadValue => Yaml::BadValue,
    }
}

/// Whether `n` is a text node holding exactly `key`.
pub open spec fn is_text_key(n: Node, key: Seq<char>) -> bool {
    match n {
        Node::Text(s) => s@ == key,
        _ => false,
    }
}

/// The index of the first entry whose key is the text `key`.
pub open spec fn find_entry(entries: Seq<(Node, Node)>, key: Seq<char>) -> Option<int>
    decreases entries.len(),
{
    if entries.len() == 0 {
        None
    } else {
        match find_entry(entries.drop_last(), key) {
            Some(i) => Some(i),
            None => if is_text_key(entries.last().0, key) {
                Some(entries.len() - 1)
            } else {
                None
            },
        }
    }
}

/// The value under the text key `key` of a mapping node; `None` where `n` is
/// no mapping or has no such key.
pub open spec fn lookup(n: Node, key: Seq<char>) -> Option<Node> {
    match n {
        Node::Hash(entries) => match find_entry(entries@, key) {
            Some(i) => Some(entries@[i].1),
            None => None,
        },
        _ => None,
    }
}

/// A lookup that found nothing usable.
pub open spec fn is_bad(o: Option<Node>) -> bool {
    match o {
        Some(Node::BadValue) => true,
        Some(_) => false,
        None => true,
    }
}

/// Whether `n` is a text node whose text is `key`.
pub fn text_key_is(n: &Node, key: &String) -> (r: bool)
    ensures
        r == is_text_key(*n, key@),
{
    match n {
        Node::Text(s) => *s == *key,
        _ => false,
    }
}

/// Looks up the text key `key` in the mapping node `n`.
pub fn lookup_key<'a>(n: &'a Node, key: &str) -> (r: Option<&'a Node>)
    ensures
        match r {
            Some(v) => lookup(*n, key@) == Some(*v),
            None => lookup(*n, key@) is None,
        },
{
    match n {
        Node::Hash(entries) => {
            let k = key.to_owned();
            let mut i: usize = 0;
            while i < entries.len()
                invariant
                    i <= entries.len(),
                    k@ == key@,
                    *n == Node::Hash(*entries),
                    find_entry(entries@.take(i as int), key@) is None,
                decreases entries.len() - i,
            {
                assert(entries@.take(i + 1).drop_last() =~= entries@.take(i as int));
                if text_key_is(&entries[i].0, &k) {
                    proof {
                        assert(entries@.take(i + 1).last() == entries@[i as int]);
                        assert(find_entry(entries@.take(i + 1), key@) == Some(i as int));
                        lemma_find_entry_prefix(entries@, key@, i + 1);
                        assert(find_entry(entries@, key@) == Some(i as int));
                    }
                    return Some(&entries[i].1);
                }
                i = i + 1;
            }
            assert(entries@.take(i as int) =~= entries@);
            None
        },
        _ => None,
    }
}

/// A key found in a prefix is found at the same place in the whole.
pub proof fn lemma_find_entry_prefix(entries: Seq<(Node, Node)>, key: Seq<char>, n: int)
    requires
        0 <= n <= entries.len(),
        find_entry(entries.take(n), key) is Some,
    ensures
        find_entry(entries, key) == find_entry(entries.take(n), key),
    decreases entries.len() - n,
{
    if n < entries.len() {
        assert(entries.take(n + 1).drop_last() =~= entries.take(n));
        lemma_find_entry_prefix(entries, key, n + 1);
    } else {
        assert(entries.take(n) =~= entries);
    }
}

} // verus!
