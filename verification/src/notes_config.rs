//! Ordering and folder state of the note list.
//!
//! The custom note order is an association from note name to position, kept
//! as a vector of pairs with pairwise-distinct keys.  Loading and saving the
//! configuration is file work and belongs to the surrounding application;
//! this module holds the order and folder logic itself.

use vstd::prelude::*;

verus! {

use crate::embedding_config::str_eq;
use crate::memory::contains_str;

/// Ordering and folder-expansion state of the note list.
#[derive(Debug, Clone)]
pub struct NotesConfig {
    /// The custom order: each note name appears at most once, paired with
    /// its position.
    pub order: Vec<(String, usize)>,
    /// The folders that are currently expanded.
    pub expanded_folders: Vec<String>,
}

/// Whether `s` holds an entry for the key `name`.
pub open spec fn has_key(s: Seq<(String, usize)>, name: Seq<char>) -> bool {
    exists|i: int| 0 <= i < s.len() && (#[trigger] s[i]).0@ == name
}

/// The position of the entry for `name` in `s`.
pub open spec fn key_index(s: Seq<(String, usize)>, name: Seq<char>) -> int {
    choose|i: int| 0 <= i < s.len() && (#[trigger] s[i]).0@ == name
}

/// The value stored for `name`, if any.
pub open spec fn spec_get(s: Seq<(String, usize)>, name: Seq<char>) -> Option<usize> {
    if has_key(s, name) {
        Some(s[key_index(s, name)].1)
    } else {
        None
    }
}

impl NotesConfig {
    /// Each note name appears at most once in the order.
    pub open spec fn wf(self) -> bool {
        forall|i: int, j: int|
            0 <= i < j < self.order@.len() ==> (#[trigger] self.order@[i]).0@ != (
            #[trigger] self.order@[j]).0@
    }

    /// An empty configuration: no custom order, no expanded folders.
    pub fn new() -> (r: Self)
        ensures
            r.order@.len() == 0,
            r.expanded_folders@.len() == 0,
            r.wf(),
    {
        NotesConfig { order: Vec::new(), expanded_folders: Vec::new() }
    }

    /// The entry for `note_name`, if the order holds one.
    fn find_entry(&self, note_name: &str) -> (r: Option<usize>)
        ensures
            r matches Some(i) ==> i < self.order@.len() && self.order@[i as int].0@ == note_name@,
            r is None ==> !has_key(self.order@, note_name@),
    {
        let mut i: usize = 0;
        while i < self.order.len()
            invariant
                i <= self.order@.len(),
                forall|j: int| 0 <= j < i ==> (#[trigger] self.order@[j]).0@ != note_name@,
            decreases self.order@.len() - i,
        {
            if str_eq(self.order[i].0.as_str(), note_name) {
                return Some(i);
            }
            i += 1;
        }
        None
    }

    /// The position of `note_name` in the custom order, if it has one.
    pub fn get_position(&self, note_name: &str) -> (r: Option<usize>)
        requires
            self.wf(),
        ensures
            r == spec_get(self.order@, note_name@),
    {
        match self.find_entry(note_name) {
            Some(i) => {
                proof {
                    assert(has_key(self.order@, note_name@));
                    assert(key_index(self.order@, note_name@) == i);
                }
                Some(self.order[i].1)
            },
            None => None,
        }
    }

    /// Give `note_name` the position `position`, replacing an earlier entry
    /// for the same name.
    pub fn set_position(&mut self, note_name: String, position: usize)
        requires
            old(self).wf(),
        ensures
            final(self).wf(),
            final(self).expanded_folders == old(self).expanded_folders,
            !has_key(old(self).order@, note_name@) ==> final(self).order@ == old(
                self,
            ).order@.push((note_name, position)),
            has_key(old(self).order@, note_name@) ==> ({
                let k = key_index(old(self).order@, note_name@);
                &&& final(self).order@.len() == old(self).order@.len()
                &&& final(self).order@[k].0@ == note_name@
                &&& final(self).order@[k].1 == position
                &&& (forall|i: int|
                    0 <= i < old(self).order@.len() && i != k ==> final(self).order@[i] == (
                    #[trigger] old(self).order@[i]))
            }),
    {
        match self.find_entry(note_name.as_str()) {
            Some(i) => {
                proof {
                    assert(has_key(self.order@, note_name@));
                    assert(key_index(self.order@, note_name@) == i);
                }
                self.order[i] = (note_name, position);
            },
            None => {
                self.order.push((note_name, position));
            },
        }
    }

    /// Remove `note_name` from the custom order; absent names are left
    /// alone.
    pub fn remove_note(&mut self, note_name: &str)
        requires
            old(self).wf(),
        ensures
            final(self).wf(),
            final(self).expanded_folders == old(self).expanded_folders,
            !has_key(old(self).order@, note_name@) ==> final(self).order@ == old(self).order@,
            has_key(old(self).order@, note_name@) ==> final(self).order@ == old(
                self,
            ).order@.remove(key_index(old(self).order@, note_name@)),
            !has_key(final(self).order@, note_name@),
    {
        match self.find_entry(note_name) {
            Some(i) => {
                proof {
                    assert(has_key(self.order@, note_name@));
                    assert(key_index(self.order@, note_name@) == i);
                }
                let ghost before = self.order@;
                self.order.remove(i);
                proof {
                    assert forall|a: int, b: int|
                        0 <= a < b < self.order@.len() implies (#[trigger] self.order@[a]).0@ != (
                    #[trigger] self.order@[b]).0@ by {
                        assert(self.order@[a] == if a < i {
                            before[a]
                        } else {
                            before[a + 1]
                        });
                        assert(self.order@[b] == if b < i {
                            before[b]
                        } else {
                            before[b + 1]
                        });
                    }
                    assert forall|a: int|
                        0 <= a < self.order@.len() implies (#[trigger] self.order@[a]).0@
                        != note_name@ by {
                        assert(self.order@[a] == if a < i {
                            before[a]
                        } else {
                            before[a + 1]
                        });
                    }
                }
            },
            None => {},
        }
    }

    /// Whether `folder` is currently expanded.
    pub fn is_folder_expanded(&self, folder: &str) -> (r: bool)
        ensures
            r == contains_str(self.expanded_folders@, folder@),
    {
        let mut i: usize = 0;
        while i < self.expanded_folders.len()
            invariant
                i <= self.expanded_folders@.len(),
                forall|j: int| 0 <= j < i ==> (#[trigger] self.expanded_folders@[j])@ != folder@,
            decreases self.expanded_folders@.len() - i,
        {
            if str_eq(self.expanded_folders[i].as_str(), folder) {
                return true;
            }
            i += 1;
        }
        false
    }

    /// Expand `folder` if it is collapsed, collapse it if it is expanded.
    pub fn toggle_folder(&mut self, folder: String)
        ensures
            final(self).order == old(self).order,
            !contains_str(old(self).expanded_folders@, folder@) ==> final(self).expanded_folders@
                == old(self).expanded_folders@.push(folder),
            contains_str(old(self).expanded_folders@, folder@) ==> (exists|k: int|
                {
                    &&& 0 <= k < old(self).expanded_folders@.len()
                    &&& (#[trigger] old(self).expanded_folders@[k])@ == folder@
                    &&& (forall|t: int|
                        0 <= t < k ==> (#[trigger] old(self).expanded_folders@[t])@ != folder@)
                    &&& final(self).expanded_folders@ == old(self).expanded_folders@.remove(k)
                }),
    {
        let mut i: usize = 0;
        while i < self.expanded_folders.len()
            invariant
                i <= self.expanded_folders@.len(),
                self.order == old(self).order,
                self.expanded_folders == old(self).expanded_folders,
                forall|j: int| 0 <= j < i ==> (#[trigger] self.expanded_folders@[j])@ != folder@,
            decreases self.expanded_folders@.len() - i,
        {
            if str_eq(self.expanded_folders[i].as_str(), folder.as_str()) {
                self.expanded_folders.remove(i);
                return ;
            }
            i += 1;
        }
        self.expanded_folders.push(folder);
    }
}


impl NotesConfig {
    /// Move `note_name` to `new_position`, shifting the other notes as a
    /// list move does: notes between the old and the new position slide one
    /// step toward the vacated place, and a note without an earlier position
    /// pushes every note at or after `new_position` one step down.
    pub fn move_note(&mut self, note_name: &str, new_position: usize)
        requires
            old(self).wf(),
            forall|i: int|
                0 <= i < old(self).order@.len() ==> (#[trigger] old(self).order@[i]).1
                    < usize::MAX,
        ensures
            final(self).wf(),
            final(self).expanded_folders == old(self).expanded_folders,
            spec_get(final(self).order@, note_name@) == Some(new_position),
            has_key(old(self).order@, note_name@) ==> ({
                let k = key_index(old(self).order@, note_name@);
                let op = old(self).order@[k].1;
                &&& final(self).order@.len() == old(self).order@.len()
                &&& final(self).order@[k].0@ == note_name@
                &&& final(self).order@[k].1 == new_position
                &&& (forall|i: int|
                    0 <= i < old(self).order@.len() && i != k ==> ({
                        let v = (#[trigger] old(self).order@[i]).1;
                        &&& final(self).order@[i].0@ == old(self).order@[i].0@
                        &&& final(self).order@[i].1 == (if op < new_position {
                            if op < v && v <= new_position {
                                (v - 1) as usize
                            } else {
                                v
                            }
                        } else if op > new_position {
                            if new_position <= v && v < op {
                                (v + 1) as usize
                            } else {
                                v
                            }
                        } else {
                            v
                        })
                    }))
            }),
            !has_key(old(self).order@, note_name@) ==> ({
                &&& final(self).order@.len() == old(self).order@.len() + 1
                &&& (forall|i: int|
                    0 <= i < old(self).order@.len() ==> ({
                        let v = (#[trigger] old(self).order@[i]).1;
                        &&& final(self).order@[i].0@ == old(self).order@[i].0@
                        &&& final(self).order@[i].1 == (if v >= new_position {
                            (v + 1) as usize
                        } else {
                            v
                        })
                    }))
                &&& final(self).order@[old(self).order@.len() as int].0@ == note_name@
                &&& final(self).order@[old(self).order@.len() as int].1 == new_position
            }),
    {
        let found = self.find_entry(note_name);
        match found {
            Some(k) => {
                proof {
                    assert(has_key(self.order@, note_name@));
                    assert(key_index(self.order@, note_name@) == k);
                }
                let old_pos = self.order[k].1;
                let n = self.order.len();
                let mut i: usize = 0;
                while i < n
                    invariant
                        old(self).wf(),
                        self.expanded_folders == old(self).expanded_folders,
                        n == self.order@.len() == old(self).order@.len(),
                        k < n,
                        old(self).order@[k as int].1 == old_pos,
                        forall|t: int|
                            0 <= t < n ==> (#[trigger] old(self).order@[t]).1 < usize::MAX,
                        forall|t: int|
                            0 <= t < n ==> (#[trigger] self.order@[t]).0@ == old(
                            self,
                        ).order@[t].0@,
                        forall|t: int|
                            i <= t < n ==> (#[trigger] self.order@[t]).1 == old(self).order@[t].1,
                        forall|t: int|
                            0 <= t < i ==> ({
                                let v = (#[trigger] old(self).order@[t]).1;
                                self.order@[t].1 == (if old_pos < new_position {
                                    if old_pos < v && v <= new_position {
                                        (v - 1) as usize
                                    } else {
                                        v
                                    }
                                } else if old_pos > new_position {
                                    if new_position <= v && v < old_pos {
                                        (v + 1) as usize
                                    } else {
                                        v
                                    }
                                } else {
                                    v
                                })
                            }),
                    decreases n - i,
                {
                    let v = self.order[i].1;
                    if old_pos < new_position {
                        if v > old_pos && v <= new_position {
                            let key = self.order[i].0.clone();
                            self.order[i] = (key, v - 1);
                        }
                    } else if old_pos > new_position {
                        if v >= new_position && v < old_pos {
                            let key = self.order[i].0.clone();
                            self.order[i] = (key, v + 1);
                        }
                    }
                    i += 1;
                }
                let key = self.order[k].0.clone();
                self.order[k] = (key, new_position);
                proof {
                    assert(final(self).wf());
                    assert(has_key(self.order@, note_name@));
                    let ki = key_index(self.order@, note_name@);
                    assert(self.order@[ki].0@ == note_name@);
                    assert(ki == k);
                }
            },
            None => {
                let n = self.order.len();
                let mut i: usize = 0;
                while i < n
                    invariant
                        old(self).wf(),
                        self.expanded_folders == old(self).expanded_folders,
                        n == self.order@.len() == old(self).order@.len(),
                        forall|t: int|
                            0 <= t < n ==> (#[trigger] old(self).order@[t]).1 < usize::MAX,
                        forall|t: int|
                            0 <= t < n ==> (#[trigger] self.order@[t]).0@ == old(
                            self,
                        ).order@[t].0@,
                        forall|t: int|
                            i <= t < n ==> (#[trigger] self.order@[t]).1 == old(self).order@[t].1,
                        forall|t: int|
                            0 <= t < i ==> ({
                                let v = (#[trigger] old(self).order@[t]).1;
                                self.order@[t].1 == (if v >= new_position {
                                    (v + 1) as usize
                                } else {
                                    v
                                })
                            }),
                    decreases n - i,
                {
                    let v = self.order[i].1;
                    if v >= new_position {
                        let key = self.order[i].0.clone();
                        self.order[i] = (key, v + 1);
                    }
                    i += 1;
                }
                self.order.push((note_name.to_owned(), new_position));
                proof {
                    assert(!has_key(old(self).order@, note_name@));
                    assert forall|a: int, b: int|
                        0 <= a < b < self.order@.len() implies (#[trigger] self.order@[a]).0@ != (
                    #[trigger] self.order@[b]).0@ by {
                        if b < self.order@.len() - 1 {
                            assert(old(self).order@[a].0@ != old(self).order@[b].0@);
                        } else {
                            assert(self.order@[a].0@ == old(self).order@[a].0@);
                        }
                    }
                    assert(has_key(self.order@, note_name@)) by {
                        assert(self.order@[self.order@.len() - 1].0@ == note_name@);
                    }
                    let ki = key_index(self.order@, note_name@);
                    assert(self.order@[ki].0@ == note_name@);
                    assert(ki == self.order@.len() - 1);
                }
            },
        }
    }
}

impl Default for NotesConfig {
    /// Same as [`NotesConfig::new`].
    fn default() -> (r: Self)
        ensures
            r.order@.len() == 0,
            r.expanded_folders@.len() == 0,
            r.wf(),
    {
        NotesConfig::new()
    }
}

} // verus!
