//! An ordered, name-keyed, multi-valued header collection with
//! case-insensitive name lookup — the narrow capability Basic Authentication
//! needs from an HTTP header map.

use vstd::prelude::*;
use crate::strutil::eq_ignore_case;
use crate::strutil::str_eq_ignore_case;

verus! {

/// The canonical Authorization header name.
pub const AUTHORIZATION: &'static str = "Authorization";

/// An ordered collection of `(name, value)` header entries. Names are kept
/// as given; lookup compares them up to ASCII case.
#[derive(Debug)]
pub struct Headers {
    entries: Vec<(String, String)>,
}

/// The mathematical view of a sequence of owned header entries.
pub open spec fn entries_view(es: Seq<(String, String)>) -> Seq<(Seq<char>, Seq<char>)> {
    Seq::new(es.len(), |i: int| (es[i].0@, es[i].1@))
}

/// The value of the last entry whose name equals `name` up to ASCII case,
/// if any entry does.
pub open spec fn last_value_for(
    entries: Seq<(Seq<char>, Seq<char>)>,
    name: Seq<char>,
) -> Option<Seq<char>>
    decreases entries.len(),
{
    if entries.len() == 0 {
        None
    } else if eq_ignore_case(entries.last().0, name) {
        Some(entries.last().1)
    } else {
        last_value_for(entries.drop_last(), name)
    }
}

/// The entries whose name differs from `name` up to ASCII case, in order.
pub open spec fn without_name(
    entries: Seq<(Seq<char>, Seq<char>)>,
    name: Seq<char>,
) -> Seq<(Seq<char>, Seq<char>)>
    decreases entries.len(),
{
    if entries.len() == 0 {
        entries
    } else if eq_ignore_case(entries.last().0, name) {
        without_name(entries.drop_last(), name)
    } else {
        without_name(entries.drop_last(), name).push(entries.last())
    }
}

/// The lookup Basic Authentication performs: the last Authorization value.
pub open spec fn authorization_value(entries: Seq<(Seq<char>, Seq<char>)>) -> Option<Seq<char>> {
    last_value_for(entries, "Authorization"@)
}

/// Law: an empty header collection holds no Authorization value, so decoding
/// it reports absence rather than an error.
pub proof fn lemma_authorization_value_empty()
    ensures
        authorization_value(Seq::<(Seq<char>, Seq<char>)>::empty()) is None,
{
}

/// Law: after an Authorization entry is set, the Authorization lookup finds
/// exactly the value that was set.
pub proof fn lemma_authorization_value_inserted(
    entries: Seq<(Seq<char>, Seq<char>)>,
    value: Seq<char>,
)
    ensures
        authorization_value(entries.push(("Authorization"@, value))) == Some(value),
{
    let pushed = entries.push(("Authorization"@, value));
    assert(pushed.last() == ("Authorization"@, value));
    assert(eq_ignore_case(pushed.last().0, "Authorization"@));
}

impl View for Headers {
    type V = Seq<(Seq<char>, Seq<char>)>;

    closed spec fn view(&self) -> Seq<(Seq<char>, Seq<char>)> {
        entries_view(self.entries@)
    }
}

impl Headers {
    /// An empty collection.
    pub fn new() -> (r: Headers)
        ensures
            r@ == Seq::<(Seq<char>, Seq<char>)>::empty(),
    {
        let r = Headers { entries: Vec::new() };
        proof {
            assert(r@ =~= Seq::<(Seq<char>, Seq<char>)>::empty());
        }
        r
    }

    /// How many entries the collection holds.
    pub fn len(&self) -> (r: usize)
        ensures
            r == self@.len(),
    {
        self.entries.len()
    }

    /// Add an entry at the end, keeping any entries of the same name.
    pub fn append(&mut self, name: &str, value: &str)
        ensures
            final(self)@ == old(self)@.push((name@, value@)),
    {
        self.entries.push((name.to_owned(), value.to_owned()));
        proof {
            assert(self@ =~= old(self)@.push((name@, value@)));
        }
    }

    /// Set the value for a name: every entry of that name (up to ASCII case)
    /// is dropped and the new entry goes at the end.
    pub fn insert(&mut self, name: &str, value: &str)
        ensures
            final(self)@ == without_name(old(self)@, name@).push((name@, value@)),
    {
        let n: usize = self.entries.len();
        let mut kept: Vec<(String, String)> = Vec::new();
        proof {
            assert(old(self)@.subrange(0, 0) =~= Seq::<(Seq<char>, Seq<char>)>::empty());
            assert(entries_view(kept@) =~= Seq::<(Seq<char>, Seq<char>)>::empty());
        }
        let mut i: usize = 0;
        while i < n
            invariant
                n == self.entries.len(),
                self.entries@ == old(self).entries@,
                self@ == old(self)@,
                i <= n,
                n == self@.len(),
                entries_view(kept@) == without_name(old(self)@.subrange(0, i as int), name@),
            decreases n - i,
        {
            let ghost prev = old(self)@.subrange(0, i as int);
            let ghost cur = old(self)@.subrange(0, i as int + 1);
            proof {
                assert(cur.drop_last() =~= prev);
                assert(cur.last() == self@[i as int]);
                assert(self@[i as int] == (self.entries@[i as int].0@, self.entries@[i as int].1@));
            }
            if !str_eq_ignore_case(self.entries[i].0.as_str(), name) {
                let entry = (self.entries[i].0.clone(), self.entries[i].1.clone());
                kept.push(entry);
                proof {
                    assert(without_name(cur, name@) == without_name(prev, name@).push(
                        self@[i as int],
                    ));
                    assert(entries_view(kept@) =~= without_name(prev, name@).push(
                        self@[i as int],
                    ));
                }
            } else {
                proof {
                    assert(without_name(cur, name@) == without_name(prev, name@));
                }
            }
            i += 1;
        }
        proof {
            assert(old(self)@.subrange(0, n as int) =~= old(self)@);
        }
        kept.push((name.to_owned(), value.to_owned()));
        self.entries = kept;
        proof {
            assert(self@ =~= without_name(old(self)@, name@).push((name@, value@)));
        }
    }

    /// The entry at a position, in insertion order.
    pub fn entry(&self, i: usize) -> (r: (&str, &str))
        requires
            i < self@.len(),
        ensures
            r.0@ == self@[i as int].0,
            r.1@ == self@[i as int].1,
    {
        let e = &self.entries[i];
        (e.0.as_str(), e.1.as_str())
    }

    /// The value of the last entry whose name equals `name` up to ASCII case.
    pub fn last_value(&self, name: &str) -> (r: Option<String>)
        ensures
            match r {
                Some(v) => last_value_for(self@, name@) == Some(v@),
                None => last_value_for(self@, name@) is None,
            },
    {
        let mut i: usize = self.entries.len();
        proof {
            assert(self@.subrange(0, i as int) =~= self@);
        }
        while i > 0
            invariant
                i <= self.entries.len(),
                self@.len() == self.entries.len(),
                last_value_for(self@, name@) == last_value_for(
                    self@.subrange(0, i as int),
                    name@,
                ),
            decreases i,
        {
            let j: usize = i - 1;
            let ghost cur = self@.subrange(0, i as int);
            proof {
                assert(cur.drop_last() =~= self@.subrange(0, j as int));
                assert(cur.last() == self@[j as int]);
            }
            if str_eq_ignore_case(self.entries[j].0.as_str(), name) {
                return Some(self.entries[j].1.clone());
            }
            i = j;
        }
        proof {
            assert(self@.subrange(0, 0) =~= Seq::<(Seq<char>, Seq<char>)>::empty());
        }
        None
    }
}

} // verus!
