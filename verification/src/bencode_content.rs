use vstd::prelude::*;

verus! {

/// A bencoded value as mathematics sees it.
pub enum Value {
    /// A byte string that is UTF-8, as text.
    Str(Seq<char>),
    /// A sequence of values.
    List(Seq<Value>),
    /// An integer.
    Int(int),
    /// A mapping, in the order in which its keys were met.
    Dict(Seq<(Seq<char>, Value)>),
    /// A byte string kept raw.
    Bytes(Seq<u8>),
}

/// The entries of a dictionary.
pub type Entries = Seq<(Seq<char>, Value)>;

/// A bencoded value.
#[derive(PartialEq, Eq, Debug)]
pub enum Content {
    Str(String),
    List(Vec<Content>),
    Int(i64),
    Dict(Dict),
    Bytes(Vec<u8>),
}

/// A bencoded dictionary: its entries in the order in which they were met.
#[derive(PartialEq, Eq, Debug)]
pub struct Dict {
    pub entries: Vec<(String, Content)>,
}

/// The first value stored under `key`, if there is one.
pub open spec fn lookup(entries: Entries, key: Seq<char>) -> Option<Value>
    decreases entries.len(),
{
    if entries.len() == 0 {
        None
    } else if entries[0].0 == key {
        Some(entries[0].1)
    } else {
        lookup(entries.skip(1), key)
    }
}

/// Whether some entry has the key `key`.
pub open spec fn has_key(entries: Entries, key: Seq<char>) -> bool {
    exists|i: int| 0 <= i < entries.len() && (#[trigger] entries[i]).0 == key
}

/// No key occurs twice.
pub open spec fn distinct_keys(entries: Entries) -> bool {
    forall|i: int, j: int|
        0 <= i < j < entries.len() ==> (#[trigger] entries[i]).0 != (#[trigger] entries[j]).0
}

/// The value that a `Content` stands for.
pub open spec fn value_of(c: Content) -> Value
    decreases c,
{
    match c {
        Content::Str(s) => Value::Str(s@),
        Content::List(items) => Value::List(
            Seq::new(
                items@.len(),
                |i: int|
                    if 0 <= i < items@.len() {
                        value_of(items@[i])
                    } else {
                        Value::Int(0)
                    },
            ),
        ),
        Content::Int(n) => Value::Int(n as int),
        Content::Dict(d) => Value::Dict(
            Seq::new(
                d.entries@.len(),
                |i: int|
                    if 0 <= i < d.entries@.len() {
                        (d.entries@[i].0@, value_of(d.entries@[i].1))
                    } else {
                        (Seq::empty(), Value::Int(0))
                    },
            ),
        ),
        Content::Bytes(b) => Value::Bytes(b@),
    }
}

impl View for Content {
    type V = Value;

    open spec fn view(&self) -> Value {
        value_of(*self)
    }
}

impl View for Dict {
    type V = Entries;

    open spec fn view(&self) -> Entries {
        Seq::new(
            self.entries@.len(),
            |i: int| (self.entries@[i].0@, self.entries@[i].1@),
        )
    }
}

/// The views of the items of a list.
pub open spec fn item_views(items: Seq<Content>) -> Seq<Value> {
    Seq::new(items.len(), |i: int| items[i]@)
}

/// A list is seen as the views of its items, a dictionary as its entries.
pub proof fn lemma_content_views(c: Content)
    ensures
        c matches Content::List(items) ==> c@ == Value::List(item_views(items@)),
        c matches Content::Dict(d) ==> c@ == Value::Dict(d@),
{
    match c {
        Content::List(items) => {
            assert(c@->List_0 =~= item_views(items@));
        },
        Content::Dict(d) => {
            assert(c@->Dict_0 =~= d@);
        },
        _ => {},
    }
}

/// Unfolding `lookup` from the back: an entry appended to `entries` is found
/// only where no earlier entry has the key.
pub proof fn lemma_lookup_push(entries: Entries, entry: (Seq<char>, Value), key: Seq<char>)
    ensures
        lookup(entries.push(entry), key) == match lookup(entries, key) {
            Some(v) => Some(v),
            None => if entry.0 == key {
                Some(entry.1)
            } else {
                None
            },
        },
    decreases entries.len(),
{
    let pushed = entries.push(entry);
    if entries.len() == 0 {
        assert(pushed.skip(1) =~= Seq::empty());
        assert(lookup(pushed.skip(1), key) is None);
        assert(pushed[0] == entry);
    } else {
        assert(pushed.skip(1) =~= entries.skip(1).push(entry));
        assert(pushed[0] == entries[0]);
        lemma_lookup_push(entries.skip(1), entry, key);
    }
}

/// `lookup` finds a value exactly where some entry has the key.
pub proof fn lemma_lookup_has_key(entries: Entries, key: Seq<char>)
    ensures
        lookup(entries, key) is Some <==> has_key(entries, key),
    decreases entries.len(),
{
    if entries.len() == 0 {
    } else if entries[0].0 == key {
    } else {
        lemma_lookup_has_key(entries.skip(1), key);
        if has_key(entries.skip(1), key) {
            let i = choose|i: int| 0 <= i < entries.skip(1).len() && (#[trigger] entries.skip(1)[i]).0 == key;
            assert(entries[i + 1].0 == key);
        }
        if has_key(entries, key) {
            let i = choose|i: int| 0 <= i < entries.len() && (#[trigger] entries[i]).0 == key;
            assert(entries.skip(1)[i - 1].0 == key);
        }
    }
}

/// Where the keys are distinct, `lookup` finds the value of each entry.
pub proof fn lemma_lookup_entry(entries: Entries, i: int)
    requires
        distinct_keys(entries),
        0 <= i < entries.len(),
    ensures
        lookup(entries, entries[i].0) == Some(entries[i].1),
    decreases entries.len(),
{
    if i > 0 {
        assert(entries[0].0 != entries[i].0);
        assert(entries.skip(1)[i - 1] == entries[i]);
        assert forall|a: int, b: int| 0 <= a < b < entries.skip(1).len() implies (
        #[trigger] entries.skip(1)[a]).0 != (#[trigger] entries.skip(1)[b]).0 by {
            assert(entries.skip(1)[a] == entries[a + 1]);
            assert(entries.skip(1)[b] == entries[b + 1]);
        }
        lemma_lookup_entry(entries.skip(1), i - 1);
    }
}

impl Content {
    /// The text, if this is a text string.
    pub fn get_str(&self) -> (r: Option<&String>)
        ensures
            r == match *self {
                Content::Str(ref s) => Some(s),
                _ => None,
            },
    {
        match self {
            Content::Str(c) => Some(c),
            _ => None,
        }
    }

    /// The items, if this is a list.
    pub fn get_list(&self) -> (r: Option<&Vec<Content>>)
        ensures
            r == match *self {
                Content::List(ref items) => Some(items),
                _ => None,
            },
    {
        match self {
            Content::List(c) => Some(c),
            _ => None,
        }
    }

    /// The number, if this is an integer.
    pub fn get_int(&self) -> (r: Option<&i64>)
        ensures
            r == match *self {
                Content::Int(ref n) => Some(n),
                _ => None,
            },
    {
        match self {
            Content::Int(c) => Some(c),
            _ => None,
        }
    }

    /// The dictionary, if this is one.
    pub fn get_dict(&self) -> (r: Option<&Dict>)
        ensures
            r == match *self {
                Content::Dict(ref d) => Some(d),
                _ => None,
            },
    {
        match self {
            Content::Dict(c) => Some(c),
            _ => None,
        }
    }

    /// The bytes, if this is a raw byte string.
    pub fn get_bytes(&self) -> (r: Option<&Vec<u8>>)
        ensures
            r == match *self {
                Content::Bytes(ref b) => Some(b),
                _ => None,
            },
    {
        match self {
            Content::Bytes(c) => Some(c),
            _ => None,
        }
    }
}

impl Dict {
    /// A dictionary without entries.
    pub fn new() -> (d: Dict)
        ensures
            d@ == Entries::empty(),
    {
        let d = Dict { entries: Vec::new() };
        assert(d@ =~= Entries::empty());
        d
    }

    /// The number of entries.
    pub fn len(&self) -> (n: usize)
        ensures
            n == self@.len(),
    {
        self.entries.len()
    }

    /// The first value stored under `key`.
    pub fn get(&self, key: &str) -> (r: Option<&Content>)
        ensures
            match r {
                Some(c) => lookup(self@, key@) == Some(c@),
                None => lookup(self@, key@) is None,
            },
    {
        let wanted = key.to_owned();
        let mut i: usize = 0;
        assert(self@.skip(0) =~= self@);
        while i < self.entries.len()
            invariant
                i <= self.entries@.len(),
                wanted@ == key@,
                lookup(self@, key@) == lookup(self@.skip(i as int), key@),
            decreases self.entries@.len() - i,
        {
            assert(self@.skip(i as int)[0] == self@[i as int]);
            if self.entries[i].0 == wanted {
                return Some(&self.entries[i].1);
            }
            assert(self@.skip(i as int).skip(1) =~= self@.skip(i + 1));
            i += 1;
        }
        assert(self@.skip(i as int).len() == 0);
        None
    }

    /// Whether some entry has the key `key`.
    pub fn contains_key(&self, key: &str) -> (b: bool)
        ensures
            b == has_key(self@, key@),
    {
        proof {
            lemma_lookup_has_key(self@, key@);
        }
        self.get(key).is_some()
    }

    /// Adds an entry at the end.
    pub fn push(&mut self, key: String, value: Content)
        ensures
            final(self)@ == old(self)@.push((key@, value@)),
    {
        self.entries.push((key, value));
        assert(self@ =~= old(self)@.push((key@, value@)));
    }
}

} // verus!
