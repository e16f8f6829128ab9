//! The persistence store: the whole entry list is kept in one named
//! slot of a byte-oriented key-value store, as its structured
//! rendering. Loading degrades to the empty list when the slot is
//! absent or does not decode; saving overwrites the slot as a whole.
//! Sorting the loaded list newest-first is the caller's one
//! responsibility at load time and is provided here.

use vstd::prelude::*;
use vstd::assert_multisets_equal;
use crate::model::{Entry, EntryView, valid_list};
use crate::codec::{decode_spec, enc_list, from_structured, to_structured,
    lemma_structured_round_trip};
use crate::text::{lex_le, str_lex_le, lemma_lex_total, lemma_lex_trans};

verus! {

broadcast use vstd::seq_lib::group_to_multiset_ensures;

/// The single storage slot, as the store sees it: absent, or holding
/// some text.
pub struct Store {
    pub slot: Option<String>,
}

impl View for Store {
    type V = Option<Seq<char>>;

    open spec fn view(&self) -> Option<Seq<char>> {
        match self.slot {
            Some(ref s) => Some(s@),
            None => None,
        }
    }
}

/// What loading yields from a slot state: the decoded list, or the
/// empty list when the slot is absent or corrupt.
pub open spec fn load_spec(slot: Option<Seq<char>>) -> Seq<EntryView> {
    match slot {
        None => Seq::empty(),
        Some(t) => match decode_spec(t) {
            Some(l) => l,
            None => Seq::empty(),
        },
    }
}

impl Store {
    /// A store whose slot has never been written.
    pub fn new() -> (s: Store)
        ensures
            s@ is None,
    {
        Store { slot: None }
    }

    /// A store over raw slot contents read from the underlying
    /// key-value store (`None` when the key is absent or the store is
    /// unavailable).
    pub fn from_raw(raw: Option<String>) -> (s: Store)
        ensures
            s@ == (match raw {
                Some(t) => Some(t@),
                None => None::<Seq<char>>,
            }),
    {
        Store { slot: raw }
    }

    /// Reads the slot. Absent, unreadable or corrupt contents degrade
    /// to the empty list; the result is not sorted.
    pub fn load(&self) -> (r: Vec<Entry>)
        ensures
            r.deep_view() == load_spec(self@),
            valid_list(r.deep_view()),
    {
        match &self.slot {
            None => Vec::new(),
            Some(text) => match from_structured(text.as_str()) {
                Some(es) => es,
                None => Vec::new(),
            },
        }
    }

    /// Serializes the full list and overwrites the slot with it.
    pub fn save(&mut self, entries: &Vec<Entry>)
        ensures
            final(self)@ == Some(enc_list(entries.deep_view())),
    {
        self.slot = Some(to_structured(entries));
    }
}

/// Saving what was loaded and loading again yields the same list as
/// the first load.
pub proof fn lemma_save_load_idempotent(slot: Option<Seq<char>>)
    ensures
        load_spec(Some(enc_list(load_spec(slot)))) == load_spec(slot),
{
    let l = load_spec(slot);
    assert(valid_list(l));
    lemma_structured_round_trip(l);
}

/// Newest first: `created_at` is non-increasing along the list.
pub open spec fn sorted_desc(l: Seq<EntryView>) -> bool {
    forall|i: int, j: int|
        0 <= i < j < l.len() ==> #[trigger] lex_le(l[j].created_at, l[i].created_at)
}

/// Sorts the entries newest-first by `created_at`. The result is a
/// permutation of the input (and so keeps every entry, with its
/// fields untouched).
pub fn sort_newest_first(entries: Vec<Entry>) -> (r: Vec<Entry>)
    ensures
        sorted_desc(r.deep_view()),
        r.deep_view().to_multiset() == entries.deep_view().to_multiset(),
        forall|i: int|
            0 <= i < r.deep_view().len() ==> entries.deep_view().contains(
                #[trigger] r.deep_view()[i],
            ),
{
    let ghost orig = entries.deep_view();
    let mut input = entries;
    let mut out: Vec<Entry> = Vec::new();
    proof {
        assert(out.deep_view() =~= Seq::<EntryView>::empty());
        assert(out.deep_view().to_multiset().add(input.deep_view().to_multiset())
            =~= orig.to_multiset());
    }
    while input.len() > 0
        invariant
            out.deep_view().to_multiset().add(input.deep_view().to_multiset())
                == orig.to_multiset(),
            sorted_desc(out.deep_view()),
            forall|a: int, b: int|
                0 <= a < out.deep_view().len() && 0 <= b < input.deep_view().len()
                    ==> #[trigger] lex_le(
                    input.deep_view()[b].created_at,
                    out.deep_view()[a].created_at,
                ),
        decreases input.len(),
    {
        let mut m: usize = 0;
        let mut k: usize = 1;
        proof {
            lemma_lex_total(
                input.deep_view()[0].created_at,
                input.deep_view()[0].created_at,
            );
        }
        while k < input.len()
            invariant
                input.deep_view().len() > 0,
                (m as int) < (k as int),
                k <= input.deep_view().len(),
                forall|j: int|
                    0 <= j < k ==> #[trigger] lex_le(
                        input.deep_view()[j].created_at,
                        input.deep_view()[(m as int)].created_at,
                    ),
            decreases input.len() - k,
        {
            proof {
                assert(input.deep_view()[k as int] == input@[k as int]@);
                assert(input.deep_view()[m as int] == input@[m as int]@);
            }
            if !str_lex_le(input[k].created_at.as_str(), input[m].created_at.as_str()) {
                proof {
                    let dv = input.deep_view();
                    lemma_lex_total(dv[k as int].created_at, dv[m as int].created_at);
                    assert(lex_le(dv[m as int].created_at, dv[k as int].created_at));
                    assert forall|j: int| 0 <= j < k + 1 implies #[trigger] lex_le(
                        dv[j].created_at,
                        dv[k as int].created_at,
                    ) by {
                        if j < k {
                            lemma_lex_trans(
                                dv[j].created_at,
                                dv[m as int].created_at,
                                dv[k as int].created_at,
                            );
                        } else {
                            lemma_lex_total(dv[j].created_at, dv[j].created_at);
                        }
                    }
                }
                m = k;
            } else {
                proof {
                    let dv = input.deep_view();
                    assert(lex_le(dv[k as int].created_at, dv[m as int].created_at));
                }
            }
            k = k + 1;
        }
        let ghost in_dv = input.deep_view();
        let ghost out_dv = out.deep_view();
        let e = input.remove(m);
        out.push(e);
        proof {
            assert(e@ == in_dv[m as int]);
            assert(input.deep_view() =~= in_dv.remove(m as int));
            assert(out.deep_view() =~= out_dv.push(e@));
            assert(in_dv.remove(m as int).to_multiset() =~= in_dv.to_multiset().remove(e@));
            assert(out_dv.push(e@).to_multiset() =~= out_dv.to_multiset().insert(e@));
            assert(in_dv.to_multiset().count(e@) > 0) by {
                assert(in_dv.contains(in_dv[m as int]));
            }
            assert_multisets_equal!(
                out_dv.to_multiset().insert(e@).add(in_dv.to_multiset().remove(e@)),
                out_dv.to_multiset().add(in_dv.to_multiset()),
            );
            // the pushed entry keeps the order: it was a maximum
            assert forall|a: int, b: int|
                0 <= a < out.deep_view().len() && 0 <= b < input.deep_view().len()
                    implies #[trigger] lex_le(
                    input.deep_view()[b].created_at,
                    out.deep_view()[a].created_at,
                ) by {
                let nb = if b < m { b } else { b + 1 };
                assert(input.deep_view()[b] == in_dv[nb]);
                if a < out_dv.len() {
                    assert(lex_le(in_dv[nb].created_at, out_dv[a].created_at));
                } else {
                    assert(out.deep_view()[a] == e@);
                    assert(lex_le(in_dv[nb].created_at, in_dv[m as int].created_at));
                }
            }
            assert(sorted_desc(out.deep_view())) by {
                assert forall|i: int, j: int| 0 <= i < j < out.deep_view().len() implies
                    #[trigger] lex_le(
                    out.deep_view()[j].created_at,
                    out.deep_view()[i].created_at,
                ) by {
                    if j < out_dv.len() {
                        assert(lex_le(out_dv[j].created_at, out_dv[i].created_at));
                    } else {
                        assert(out.deep_view()[j] == e@);
                        assert(lex_le(in_dv[m as int].created_at, out_dv[i].created_at));
                    }
                }
            }
        }
    }
    proof {
        assert(input.deep_view().to_multiset() =~= Seq::<EntryView>::empty().to_multiset());
        assert(out.deep_view().to_multiset() =~= out.deep_view().to_multiset().add(
            input.deep_view().to_multiset(),
        ));
        assert forall|i: int| 0 <= i < out.deep_view().len() implies orig.contains(
            #[trigger] out.deep_view()[i],
        ) by {
            assert(out.deep_view().contains(out.deep_view()[i]));
            assert(out.deep_view().to_multiset().count(out.deep_view()[i]) > 0);
            assert(orig.to_multiset().count(out.deep_view()[i]) > 0);
        }
    }
    out
}

} // verus!
