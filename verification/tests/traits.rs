use relay::traits::{
    path_components, Empty, FromValue, Getter, IndexIter, IntoValue, SkipSerialization,
};
use relay::value::{Annotated, Meta, MetaMap, MetaTree, Val, Value};

#[test]
fn descend_turns_shallow_behaviors_into_never() {
    assert_eq!(
        SkipSerialization::Null(false).descend(),
        SkipSerialization::Never
    );
    assert_eq!(
        SkipSerialization::Empty(false).descend(),
        SkipSerialization::Never
    );
}

#[test]
fn descend_keeps_the_other_behaviors() {
    assert_eq!(SkipSerialization::Never.descend(), SkipSerialization::Never);
    assert_eq!(
        SkipSerialization::Null(true).descend(),
        SkipSerialization::Null(true)
    );
    assert_eq!(
        SkipSerialization::Empty(true).descend(),
        SkipSerialization::Empty(true)
    );
}

#[test]
fn descend_twice_is_descend_once() {
    for behavior in [
        SkipSerialization::Never,
        SkipSerialization::Null(false),
        SkipSerialization::Null(true),
        SkipSerialization::Empty(false),
        SkipSerialization::Empty(true),
    ] {
        assert_eq!(behavior.descend().descend(), behavior.descend());
    }
}

#[test]
fn skip_serialization_defaults_to_deep_null() {
    assert_eq!(SkipSerialization::default(), SkipSerialization::Null(true));
}

struct Text(String);

impl Empty for Text {
    fn is_empty(&self) -> bool {
        self.0.is_empty()
    }
}

#[test]
fn deep_empty_defaults_to_empty() {
    assert!(Text(String::new()).is_deep_empty());
    assert!(!Text("x".to_string()).is_deep_empty());
}

fn drain(mut iter: IndexIter<'_>) -> Vec<&str> {
    let mut keys = Vec::new();
    while let Some(key) = iter.next() {
        keys.push(key);
    }
    assert_eq!(iter.next(), None);
    keys
}

#[test]
fn index_iter_empty_yields_nothing() {
    let mut iter = IndexIter::empty();
    assert_eq!(iter.size_hint(), (0, Some(0)));
    assert_eq!(iter.next(), None);
    assert_eq!(iter.nth(0), None);
    assert_eq!(iter.count(), 0);
    assert_eq!(IndexIter::default().count(), 0);
}

#[test]
fn index_iter_from_slice_yields_the_slice() {
    let keys = ["foo", "bar"];
    let iter = IndexIter::from_slice(&keys);
    assert_eq!(iter.size_hint(), (2, Some(2)));
    assert_eq!(drain(iter), vec!["foo", "bar"]);
}

#[test]
fn index_iter_new_yields_what_the_iterator_yields() {
    let owned = vec!["a".to_string(), "b".to_string(), "c".to_string()];
    let iter = IndexIter::new(owned.iter().map(|key| key.as_str()));
    assert_eq!(iter.size_hint(), (3, Some(3)));
    assert_eq!(drain(iter), vec!["a", "b", "c"]);
}

#[test]
fn index_iter_counts_what_is_left() {
    let keys = ["a", "b", "c"];
    let mut iter = IndexIter::from_slice(&keys);
    assert_eq!(iter.next(), Some("a"));
    assert_eq!(iter.size_hint(), (2, Some(2)));
    assert_eq!(iter.count(), 2);
}

#[test]
fn index_iter_nth_skips_keys() {
    let keys = ["a", "b", "c", "d"];
    let mut iter = IndexIter::from_slice(&keys);
    assert_eq!(iter.nth(1), Some("b"));
    assert_eq!(iter.nth(0), Some("c"));
    assert_eq!(iter.nth(1), None);
    assert_eq!(iter.next(), None);

    let mut iter = IndexIter::from_slice(&keys);
    assert_eq!(iter.nth(3), Some("d"));
    assert_eq!(iter.next(), None);

    let mut iter = IndexIter::from_slice(&keys);
    assert_eq!(iter.nth(4), None);
    assert_eq!(iter.count(), 0);
}

#[test]
fn path_components_split_at_dots() {
    assert_eq!(path_components("foo.value"), vec!["foo", "value"]);
    assert_eq!(path_components("foo"), vec!["foo"]);
    assert_eq!(path_components("a.b.c"), vec!["a", "b", "c"]);
}

#[test]
fn path_components_keep_empty_components() {
    assert_eq!(path_components(""), vec![""]);
    assert_eq!(path_components("."), vec!["", ""]);
    assert_eq!(path_components("a..b"), vec!["a", "", "b"]);
    assert_eq!(path_components(".a."), vec!["", "a", ""]);
}

#[test]
fn path_components_count_characters_not_bytes() {
    assert_eq!(path_components("é.ü"), vec!["é", "ü"]);
    assert_eq!(path_components("日本.語"), vec!["日本", "語"]);
}

struct Root {
    a: u64,
    name: String,
}

impl Getter for Root {
    fn get_value(&self, path: &str) -> Option<Val<'_>> {
        match path.strip_prefix("root.")? {
            "a" => Some(self.a.into()),
            "name" => Some(self.name.as_str().into()),
            _ => None,
        }
    }
}

#[test]
fn getter_yields_values_by_path() {
    let root = Root {
        a: 1,
        name: "test".to_string(),
    };
    assert_eq!(root.get_value("root.a"), Some(Val::U64(1)));
    assert_eq!(root.get_value("root.name"), Some(Val::String("test")));
    assert_eq!(root.get_value("root.d"), None);
}

#[test]
fn val_from_plain_values() {
    assert_eq!(Val::from(42u64), Val::U64(42));
    assert_eq!(Val::from("value"), Val::String("value"));
    let val: Val = 42u64.into();
    assert_eq!(val, Val::U64(42));
}

#[derive(Debug, PartialEq)]
struct Flag(bool);

impl Empty for Flag {
    fn is_empty(&self) -> bool {
        !self.0
    }
}

impl FromValue for Flag {
    fn from_value(value: Annotated<Value>) -> Annotated<Self> {
        match value {
            Annotated(Some(Value::Bool(flag)), meta) => Annotated(Some(Flag(flag)), meta),
            Annotated(_, meta) => Annotated(None, meta),
        }
    }
}

impl IntoValue for Flag {
    fn into_value(self) -> Value {
        Value::Bool(self.0)
    }
}

#[derive(Debug)]
struct Pair(Flag, Flag);

impl Empty for Pair {
    fn is_empty(&self) -> bool {
        false
    }
}

impl IntoValue for Pair {
    fn into_value(self) -> Value {
        Value::Array(vec![
            Annotated(Some(self.0.into_value()), Meta::default()),
            Annotated(Some(self.1.into_value()), Meta::default()),
        ])
    }

    fn extract_child_meta(&self) -> MetaMap {
        let mut children = MetaMap::new();
        children.insert(
            "0".to_string(),
            MetaTree {
                meta: Meta {
                    original_length: Some(1),
                },
                children: MetaMap::new(),
            },
        );
        children
    }
}

#[test]
fn from_value_and_into_value_go_both_ways() {
    let meta = Meta {
        original_length: Some(3),
    };
    let flag = Flag::from_value(Annotated(Some(Value::Bool(true)), meta));
    assert_eq!(flag, Annotated(Some(Flag(true)), meta));
    assert_eq!(flag.0.unwrap().into_value(), Value::Bool(true));

    let none = Flag::from_value(Annotated(Some(Value::U64(1)), meta));
    assert_eq!(none, Annotated(None, meta));
}

#[test]
fn meta_tree_of_a_value_without_children() {
    let meta = Meta {
        original_length: Some(7),
    };
    assert!(Flag(true).extract_child_meta().is_empty());
    assert_eq!(
        IntoValue::extract_meta_tree(&Annotated(Some(Flag(true)), meta)),
        MetaTree {
            meta,
            children: MetaMap::new(),
        }
    );
    assert_eq!(
        IntoValue::extract_meta_tree(&Annotated(None::<Flag>, meta)),
        MetaTree {
            meta,
            children: MetaMap::new(),
        }
    );
}

#[test]
fn meta_tree_takes_the_children_of_the_value() {
    let meta = Meta {
        original_length: None,
    };
    let pair = Pair(Flag(true), Flag(false));
    let children = pair.extract_child_meta();
    let tree = IntoValue::extract_meta_tree(&Annotated(Some(pair), meta));
    assert_eq!(tree.meta, meta);
    assert_eq!(tree.children, children);
    assert_eq!(tree.children.len(), 1);

    let tree = IntoValue::extract_meta_tree(&Annotated(None::<Pair>, meta));
    assert!(tree.children.is_empty());
}
