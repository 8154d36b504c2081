//! The ordered list of server base URLs and its active index.

use vstd::prelude::*;

use crate::text::{string_clear, string_pop, string_push};

verus! {

/// The stored servers and the index of the one in use.
pub struct Servers {
    pub value: Vec<String>,
    pub active: usize,
}

impl Servers {
    /// The active index lies inside the sequence whenever it is nonempty,
    /// and is zero when it is empty.
    pub open spec fn wf(self) -> bool {
        if self.value@.len() == 0 {
            self.active == 0
        } else {
            self.active < self.value@.len()
        }
    }

    /// The text of every stored server.
    pub open spec fn spec_urls(self) -> Seq<Seq<char>> {
        self.value@.map_values(|s: String| s@)
    }

    /// A copy of the active server's URL.
    pub fn get_active(&self) -> (r: String)
        requires
            self.wf(),
            self.value@.len() > 0,
        ensures
            r@ == self.value@[self.active as int]@,
    {
        self.value[self.active].clone()
    }

    /// A mutable borrow of the active server's URL.
    pub fn get_active_mut(&mut self) -> (r: &mut String)
        requires
            old(self).wf(),
            old(self).value@.len() > 0,
        ensures
            *r == old(self).value@[old(self).active as int],
            final(self).value@ == old(self).value@.update(old(self).active as int, *final(r)),
            final(self).active == old(self).active,
    {
        let i = self.active;
        &mut self.value[i]
    }

    /// Replaces the active server's URL.
    pub fn update_active(&mut self, s: String)
        requires
            old(self).wf(),
            old(self).value@.len() > 0,
        ensures
            final(self).value@ == old(self).value@.update(old(self).active as int, s),
            final(self).active == old(self).active,
            final(self).wf(),
    {
        let i = self.active;
        self.value.set(i, s);
    }

    /// Selects an index directly; callers pass indices from the rendered
    /// list, which has the same length.
    pub fn set_active(&mut self, idx: usize)
        requires
            old(self).wf(),
            idx < old(self).value@.len(),
        ensures
            final(self).value == old(self).value,
            final(self).active == idx,
            final(self).wf(),
    {
        self.active = idx;
    }

    /// Appends a server and advances the active index to the new entry.
    pub fn add_server(&mut self, s: String)
        requires
            old(self).wf(),
        ensures
            final(self).value@ == old(self).value@.push(s),
            final(self).active == old(self).value@.len(),
            final(self).wf(),
    {
        self.value.push(s);
        self.active = self.value.len() - 1;
    }

    /// Appends a character to the active server's URL.
    pub fn handle_char(&mut self, c: char)
        requires
            old(self).wf(),
            old(self).value@.len() > 0,
        ensures
            final(self).active == old(self).active,
            final(self).value@ == old(self).value@.update(
                old(self).active as int,
                final(self).value@[old(self).active as int],
            ),
            final(self).value@[old(self).active as int]@ == old(self).value@[old(
                self,
            ).active as int]@.push(c),
            final(self).wf(),
    {
        let i = self.active;
        string_push(&mut self.value[i], c);
    }

    /// Removes the last character of the active server's URL, if any.
    pub fn pop(&mut self)
        requires
            old(self).wf(),
            old(self).value@.len() > 0,
        ensures
            final(self).active == old(self).active,
            final(self).value@ == old(self).value@.update(
                old(self).active as int,
                final(self).value@[old(self).active as int],
            ),
            final(self).value@[old(self).active as int]@ == crate::request::popped(
                old(self).value@[old(self).active as int]@,
            ),
            final(self).wf(),
    {
        let i = self.active;
        string_pop(&mut self.value[i]);
    }

    /// Empties the active server's URL.
    pub fn clear(&mut self)
        requires
            old(self).wf(),
            old(self).value@.len() > 0,
        ensures
            final(self).active == old(self).active,
            final(self).value@ == old(self).value@.update(
                old(self).active as int,
                final(self).value@[old(self).active as int],
            ),
            final(self).value@[old(self).active as int]@ == Seq::<char>::empty(),
            final(self).wf(),
    {
        let i = self.active;
        string_clear(&mut self.value[i]);
    }
}

impl Default for Servers {
    /// An empty server list.
    fn default() -> (r: Servers)
        ensures
            r.wf(),
            r.value@.len() == 0,
            r.active == 0,
    {
        Servers { value: Vec::new(), active: 0 }
    }
}

} // verus!
