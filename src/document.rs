use vstd::prelude::*;

verus! {

/// A parsed configuration document, as a tree of tables, arrays and strings.
/// Every other scalar (numbers, booleans, dates) is `Other`: nothing here reads it.
#[derive(Debug)]
pub enum Document {
    Table(Vec<(String, Document)>),
    Array(Vec<Document>),
    Str(String),
    Other,
}

/// The value that `entries` holds under `key`; of several entries with that
/// key, the first one counts.
pub open spec fn lookup(entries: Seq<(String, Document)>, key: Seq<char>) -> Option<Document>
    decreases entries.len(),
{
    if entries.len() == 0 {
        None
    } else if entries[0].0@ == key {
        Some(entries[0].1)
    } else {
        lookup(entries.drop_first(), key)
    }
}

impl Document {
    /// The value under `key`, where this document is a table that has it.
    pub open spec fn get_spec(&self, key: Seq<char>) -> Option<Document> {
        match self {
            Document::Table(entries) => lookup(entries@, key),
            _ => None,
        }
    }

    /// The string that this document is, or the empty string where it is no string.
    pub open spec fn str_or_empty(&self) -> Seq<char> {
        match self {
            Document::Str(s) => s@,
            _ => Seq::empty(),
        }
    }

    pub fn get(&self, key: &String) -> (r: Option<&Document>)
        ensures
            match r {
                Some(d) => self.get_spec(key@) == Some(*d),
                None => self.get_spec(key@) is None,
            },
    {
        match self {
            Document::Table(entries) => {
                let mut i: usize = 0;
                assert(entries@.subrange(0, entries@.len() as int) =~= entries@);
                while i < entries.len()
                    invariant
                        i <= entries@.len(),
                        self.get_spec(key@) == lookup(entries@, key@),
                        lookup(entries@, key@) == lookup(entries@.subrange(i as int, entries@.len() as int), key@),
                    decreases entries@.len() - i,
                {
                    let ghost rest = entries@.subrange(i as int, entries@.len() as int);
                    assert(rest.drop_first() =~= entries@.subrange(i + 1, entries@.len() as int));
                    assert(rest[0] == entries@[i as int]);
                    if entries[i].0 == *key {
                        assert(lookup(rest, key@) == Some(entries@[i as int].1));
                        return Some(&entries[i].1);
                    }
                    i = i + 1;
                }
                None
            },
            _ => None,
        }
    }

    /// The string under `key` of this table, or the empty string where there is
    /// no such entry or it holds something else.
    pub fn string_field(&self, key: &String) -> (r: String)
        ensures
            r@ == match self.get_spec(key@) {
                Some(d) => d.str_or_empty(),
                None => Seq::empty(),
            },
    {
        match self.get(key) {
            Some(Document::Str(s)) => s.clone(),
            _ => String::new(),
        }
    }
}

} // verus!
