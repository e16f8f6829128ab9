//! One editing session over the store: the in-memory entry list and
//! the mutations the user can trigger. Every mutation validates its
//! input, updates the list, and writes the whole list back to the
//! store; exports render the current list. The surrounding front end
//! only wires events to these functions and performs the actual
//! storage, prompt and download side effects.

use vstd::prelude::*;
use vstd::string::StringExecFns;
use crate::model::{Entry, EntryView, ValidationError, build_entry, valid_hours, positive_hours,
    valid_list};
use crate::codec::{enc_list, to_structured};
use crate::store::{Store, load_spec, sorted_desc, sort_newest_first};
use crate::tabular::{tabular, to_tabular};
use crate::text::trim_spec;

verus! {

/// The live state of the application core: the store and the entry
/// list currently adopted in memory.
pub struct Session {
    pub store: Store,
    pub entries: Vec<Entry>,
}

impl Session {
    /// Starts a session: loads the list from the store and sorts it
    /// newest-first, the one sort performed at load time.
    pub fn start(store: Store) -> (s: Session)
        ensures
            s.store@ == store@,
            sorted_desc(s.entries.deep_view()),
            s.entries.deep_view().to_multiset() == load_spec(store@).to_multiset(),
            valid_list(s.entries.deep_view()),
    {
        let loaded = store.load();
        let ghost loaded_dv = loaded.deep_view();
        let entries = sort_newest_first(loaded);
        proof {
            assert forall|i: int| 0 <= i < entries.deep_view().len() implies crate::model::valid_entry(
                #[trigger] entries.deep_view()[i],
            ) by {
                let ev = entries.deep_view()[i];
                assert(loaded_dv.contains(ev));
                let j = choose|j: int| 0 <= j < loaded_dv.len() && loaded_dv[j] == ev;
                assert(crate::model::valid_entry(loaded_dv[j]));
            }
        }
        Session { store, entries }
    }

    /// Validates the form input and, on success, prepends the new
    /// entry (so it stands at index 0) and persists the whole list.
    /// On failure nothing changes. `id` and `created_at` come from
    /// the caller: a fresh identifier and the current timestamp.
    pub fn add(
        &mut self,
        date: &str,
        org: &str,
        hours_raw: &str,
        tasks: &str,
        reflection: &str,
        tags: &str,
        id: &str,
        created_at: &str,
    ) -> (r: Result<(), ValidationError>)
        ensures
            ({
                let d = trim_spec(date@);
                let o = trim_spec(org@);
                let h = trim_spec(hours_raw@);
                &&& (r == Err::<(), ValidationError>(ValidationError::MissingRequired) <==> (
                d.len() == 0 || o.len() == 0))
                &&& (r == Err::<(), ValidationError>(ValidationError::NonPositiveHours) <==> (
                d.len() > 0 && o.len() > 0 && !(valid_hours(h) && positive_hours(h))))
                &&& (r is Err ==> *final(self) == *old(self))
                &&& (r is Ok <==> (d.len() > 0 && o.len() > 0 && valid_hours(h)
                    && positive_hours(h)))
                &&& (r is Ok ==> final(self).entries.deep_view() == seq![
                    (EntryView {
                        id: id@,
                        date: d,
                        org: o,
                        hours: h,
                        tasks: trim_spec(tasks@),
                        reflection: trim_spec(reflection@),
                        tags: trim_spec(tags@),
                        created_at: created_at@,
                    }),
                ] + old(self).entries.deep_view())
                &&& (r is Ok ==> final(self).store@ == Some(
                    enc_list(final(self).entries.deep_view()),
                ))
            }),
    {
        match build_entry(date, org, hours_raw, tasks, reflection, tags, id, created_at) {
            Err(e) => Err(e),
            Ok(entry) => {
                let ghost pre_dv = self.entries.deep_view();
                let ghost ev = entry@;
                self.entries.insert(0, entry);
                proof {
                    assert(self.entries.deep_view() =~= seq![ev] + pre_dv);
                }
                self.store.save(&self.entries);
                Ok(())
            },
        }
    }

    /// Clears all entries after the user confirmed; without
    /// confirmation nothing changes. The emptied list is persisted.
    pub fn clear_all(&mut self, confirmed: bool)
        ensures
            !confirmed ==> *final(self) == *old(self),
            confirmed ==> final(self).entries.deep_view() == Seq::<EntryView>::empty(),
            confirmed ==> final(self).store@ == Some(enc_list(Seq::<EntryView>::empty())),
    {
        if confirmed {
            self.entries = Vec::new();
            proof {
                assert(self.entries.deep_view() =~= Seq::<EntryView>::empty());
            }
            self.store.save(&self.entries);
        }
    }

    /// The structured export of the current list.
    pub fn export_structured(&self) -> (r: String)
        ensures
            r@ == enc_list(self.entries.deep_view()),
    {
        to_structured(&self.entries)
    }

    /// The tabular export of the current list.
    pub fn export_tabular(&self) -> (r: String)
        ensures
            r@ == tabular(self.entries.deep_view()),
    {
        to_tabular(&self.entries)
    }

    /// How many entries the session currently holds.
    pub fn entry_count(&self) -> (n: usize)
        ensures
            n == self.entries.deep_view().len(),
    {
        self.entries.len()
    }
}

/// The fixed key that namespaces this application's slot in the
/// underlying key-value store.
pub fn storage_key() -> (r: String)
    ensures
        r@ == "gifnar_volunteer_log_v1"@,
{
    String::from_str("gifnar_volunteer_log_v1")
}

/// The suggested file name for the structured export.
pub fn structured_export_filename() -> (r: String)
    ensures
        r@ == "gifnar-volunteer-log.json"@,
{
    String::from_str("gifnar-volunteer-log.json")
}

/// The suggested file name for the tabular export.
pub fn tabular_export_filename() -> (r: String)
    ensures
        r@ == "gifnar-volunteer-log.csv"@,
{
    String::from_str("gifnar-volunteer-log.csv")
}

} // verus!
