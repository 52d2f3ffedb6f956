//! A YAML document as plain values, as far as reading keys from manifests needs it.
use vstd::prelude::*;

verus! {

/// One YAML value. Tags are not kept: a tagged value stands as the value it tags.
#[derive(Debug)]
pub enum YamlNode {
    Null,
    Bool(bool),
    /// A number, in its textual form.
    Number(String),
    Str(String),
    List(Vec<YamlNode>),
    /// Entries in document order; keys are unique.
    Mapping(Vec<YamlEntry>),
}

/// One entry of a mapping.
#[derive(Debug)]
pub struct YamlEntry {
    pub key: YamlNode,
    pub value: YamlNode,
}

/// The value of the first entry from `i` on whose key is the string `key`.
pub open spec fn lookup(entries: Seq<YamlEntry>, key: Seq<char>, i: int) -> Option<YamlNode>
    decreases entries.len() - i,
{
    if i < 0 || i >= entries.len() {
        None
    } else if entries[i].key is Str && entries[i].key->Str_0@ == key {
        Some(entries[i].value)
    } else {
        lookup(entries, key, i + 1)
    }
}

/// The value under string key `key` of a mapping; nothing for other values.
pub open spec fn yaml_get(n: YamlNode, key: Seq<char>) -> Option<YamlNode> {
    match n {
        YamlNode::Mapping(entries) => lookup(entries@, key, 0),
        _ => None,
    }
}

/// The text of a string value.
pub open spec fn yaml_text(n: Option<YamlNode>) -> Option<Seq<char>> {
    match n {
        Some(YamlNode::Str(s)) => Some(s@),
        _ => None,
    }
}

impl YamlNode {
    /// The value under string key `key`, when this is a mapping that has one.
    pub fn get(&self, key: &str) -> (r: Option<&YamlNode>)
        ensures
            r matches Some(v) ==> yaml_get(*self, key@) == Some(*v),
            r is None ==> yaml_get(*self, key@) is None,
    {
        match self {
            YamlNode::Mapping(entries) => {
                let mut i: usize = 0;
                assert(yaml_get(*self, key@) == lookup(entries@, key@, 0));
                while i < entries.len()
                    invariant
                        i <= entries@.len(),
                        yaml_get(*self, key@) == lookup(entries@, key@, i as int),
                    decreases entries.len() - i,
                {
                    let e = &entries[i];
                    match &e.key {
                        YamlNode::Str(s) => {
                            if str_eq(s.as_str(), key) {
                                assert(entries@[i as int].key is Str);
                                assert(entries@[i as int].key->Str_0@ == key@);
                                assert(lookup(entries@, key@, i as int) == Some(
                                    entries@[i as int].value,
                                ));
                                return Some(&e.value);
                            }
                        },
                        _ => {},
                    }
                    i += 1;
                }
                None
            },
            _ => None,
        }
    }

    /// The text of this value, when it is a string.
    pub fn as_text(&self) -> (r: Option<&String>)
        ensures
            r matches Some(s) ==> yaml_text(Some(*self)) == Some(s@),
            r is None ==> yaml_text(Some(*self)) is None,
    {
        match self {
            YamlNode::Str(s) => Some(s),
            _ => None,
        }
    }
}

/// The text of `n`, when it is a string value.
pub fn text_of(n: Option<&YamlNode>) -> (r: Option<&String>)
    ensures
        r matches Some(s) ==> yaml_text(
            match n {
                Some(v) => Some(*v),
                None => None,
            },
        ) == Some(s@),
        r is None ==> yaml_text(
            match n {
                Some(v) => Some(*v),
                None => None,
            },
        ) is None,
{
    match n {
        Some(v) => v.as_text(),
        None => None,
    }
}

/// Whether two strings hold the same characters.
pub fn str_eq(a: &str, b: &str) -> (r: bool)
    ensures
        r == (a@ == b@),
{
    let x = a.to_owned();
    let y = b.to_owned();
    x == y
}

} // verus!
