//! The stored request definitions and the collection that holds them, with
//! its navigation and mutation operations. The collection keeps the active
//! index inside the sequence whenever the sequence is nonempty; reads on an
//! empty collection return the default definition and never index.

use vstd::prelude::*;

use crate::method::HttpMethod;
use crate::text::{string_clear, string_pop, string_push};

verus! {

/// One stored request definition: the method, the server base URL, the
/// path, and the raw multi-line texts for query, payload, headers and
/// extraction rules.
pub struct RequestInput {
    pub method: HttpMethod,
    pub server: String,
    pub path: String,
    pub query: String,
    pub payload: String,
    pub headers: String,
    pub parsing_rules: String,
}

/// The definition a fresh request starts from: a GET against
/// `http://localhost` with every text field empty.
pub open spec fn is_bootstrap_request(r: RequestInput) -> bool {
    &&& r.method == HttpMethod::GET
    &&& r.server@ == "http://localhost"@
    &&& r.path@ == Seq::<char>::empty()
    &&& r.query@ == Seq::<char>::empty()
    &&& r.payload@ == Seq::<char>::empty()
    &&& r.headers@ == Seq::<char>::empty()
    &&& r.parsing_rules@ == Seq::<char>::empty()
}

impl Default for RequestInput {
    fn default() -> (r: RequestInput)
        ensures
            is_bootstrap_request(r),
    {
        RequestInput {
            method: HttpMethod::GET,
            server: String::from_str("http://localhost"),
            path: String::new(),
            query: String::new(),
            payload: String::new(),
            headers: String::new(),
            parsing_rules: String::new(),
        }
    }
}

impl RequestInput {
    /// A field-for-field copy of the definition.
    pub fn duplicate(&self) -> (r: RequestInput)
        ensures
            r == *self,
    {
        RequestInput {
            method: self.method,
            server: self.server.clone(),
            path: self.path.clone(),
            query: self.query.clone(),
            payload: self.payload.clone(),
            headers: self.headers.clone(),
            parsing_rules: self.parsing_rules.clone(),
        }
    }
}

/// Two definitions that agree on everything but the path.
pub open spec fn same_but_path(a: RequestInput, b: RequestInput) -> bool {
    b.method == a.method && b.server == a.server && b.query == a.query && b.payload == a.payload
        && b.headers == a.headers && b.parsing_rules == a.parsing_rules
}

/// Two definitions that agree on everything but the query.
pub open spec fn same_but_query(a: RequestInput, b: RequestInput) -> bool {
    b.method == a.method && b.server == a.server && b.path == a.path && b.payload == a.payload
        && b.headers == a.headers && b.parsing_rules == a.parsing_rules
}

/// Two definitions that agree on everything but the payload.
pub open spec fn same_but_payload(a: RequestInput, b: RequestInput) -> bool {
    b.method == a.method && b.server == a.server && b.path == a.path && b.query == a.query
        && b.headers == a.headers && b.parsing_rules == a.parsing_rules
}

/// Two definitions that agree on everything but the headers.
pub open spec fn same_but_headers(a: RequestInput, b: RequestInput) -> bool {
    b.method == a.method && b.server == a.server && b.path == a.path && b.query == a.query
        && b.payload == a.payload && b.parsing_rules == a.parsing_rules
}

/// Two definitions that agree on everything but the method.
pub open spec fn same_but_method(a: RequestInput, b: RequestInput) -> bool {
    b.server == a.server && b.path == a.path && b.query == a.query && b.payload == a.payload
        && b.headers == a.headers && b.parsing_rules == a.parsing_rules
}

/// A text edit: the new text after pushing one character.
pub open spec fn pushed(s: Seq<char>, c: char) -> Seq<char> {
    s.push(c)
}

/// A text edit: the new text after popping the last character, the empty
/// text staying empty.
pub open spec fn popped(s: Seq<char>) -> Seq<char> {
    if s.len() > 0 {
        s.drop_last()
    } else {
        s
    }
}

/// The ordered collection of request definitions and the active index.
pub struct Requests {
    pub value: Vec<RequestInput>,
    pub active: usize,
}

impl Requests {
    /// The active index lies inside the sequence whenever it is nonempty,
    /// and is zero when it is empty.
    pub open spec fn wf(self) -> bool {
        if self.value@.len() == 0 {
            self.active == 0
        } else {
            self.active < self.value@.len()
        }
    }

    /// A copy of the active definition, or the default definition when the
    /// collection is empty.
    pub fn get_active(&self) -> (r: RequestInput)
        requires
            self.wf(),
        ensures
            self.value@.len() > 0 ==> r == self.value@[self.active as int],
            self.value@.len() == 0 ==> is_bootstrap_request(r),
    {
        if self.value.len() > 0 {
            self.value[self.active].duplicate()
        } else {
            RequestInput::default()
        }
    }

    /// A mutable borrow of the active definition.
    pub fn get_active_mut(&mut self) -> (r: &mut RequestInput)
        requires
            old(self).wf(),
            old(self).value@.len() > 0,
        ensures
            *r == old(self).value@[old(self).active as int],
            final(self).value@ == old(self).value@.update(old(self).active as int, *final(r)),
            final(self).active == old(self).active,
    {
        let i = self.active;
        &mut self.value[i]
    }

    /// Replaces the active definition.
    pub fn update_active(&mut self, s: RequestInput)
        requires
            old(self).wf(),
            old(self).value@.len() > 0,
        ensures
            final(self).value@ == old(self).value@.update(old(self).active as int, s),
            final(self).active == old(self).active,
            final(self).wf(),
    {
        let i = self.active;
        self.value.set(i, s);
    }

    /// Selects an index directly; callers pass indices from the rendered
    /// list, which has the same length.
    pub fn set_active(&mut self, idx: usize)
        requires
            old(self).wf(),
            idx < old(self).value@.len(),
        ensures
            final(self).value == old(self).value,
            final(self).active == idx,
            final(self).wf(),
    {
        self.active = idx;
    }

    /// Appends a definition at the end; the active index is unchanged.
    pub fn add(&mut self, s: RequestInput)
        requires
            old(self).wf(),
        ensures
            final(self).value@ == old(self).value@.push(s),
            final(self).active == old(self).active,
            final(self).wf(),
    {
        self.value.push(s);
    }

    /// Removes the active definition. When the collection empties, the
    /// active index resets to zero; otherwise it moves one back when it was
    /// first or last, and else stays, now naming the following entry.
    pub fn delete_active(&mut self)
        requires
            old(self).wf(),
            old(self).value@.len() > 0,
        ensures
            final(self).value@ == old(self).value@.remove(old(self).active as int),
            final(self).active == if old(self).value@.len() == 1 || old(self).active == 0 {
                0int
            } else if old(self).active == old(self).value@.len() - 1 {
                old(self).active - 1
            } else {
                old(self).active as int
            },
            final(self).wf(),
    {
        let i = self.active;
        self.value.remove(i);
        if self.value.len() == 0 || self.active == 0 {
            self.active = 0;
        } else if self.active == self.value.len() {
            self.active = self.active - 1;
        }
    }

    /// Steps the active index forward, wrapping past the end; a no-op on an
    /// empty collection.
    pub fn next(&mut self)
        requires
            old(self).wf(),
        ensures
            final(self).value == old(self).value,
            final(self).active == if old(self).value@.len() == 0 {
                0int
            } else if old(self).active == old(self).value@.len() - 1 {
                0int
            } else {
                old(self).active + 1
            },
            final(self).wf(),
    {
        let length = self.value.len();
        if length == 0 {
            return ;
        }
        if self.active == length - 1 {
            self.active = 0;
        } else {
            self.active = self.active + 1;
        }
    }

    /// Steps the active index backward, wrapping past the start; a no-op on
    /// an empty collection.
    pub fn previous(&mut self)
        requires
            old(self).wf(),
        ensures
            final(self).value == old(self).value,
            final(self).active == if old(self).value@.len() == 0 {
                0int
            } else if old(self).active == 0 {
                old(self).value@.len() - 1
            } else {
                old(self).active - 1
            },
            final(self).wf(),
    {
        let length = self.value.len();
        if length == 0 {
            return ;
        }
        if self.active == 0 {
            self.active = length - 1;
        } else {
            self.active = self.active - 1;
        }
    }

    /// Steps the active definition's method forward in its cycle.
    pub fn set_next_method(&mut self)
        requires
            old(self).wf(),
            old(self).value@.len() > 0,
        ensures
            final(self).active == old(self).active,
            final(self).value@.len() == old(self).value@.len(),
            same_but_method(
                old(self).value@[old(self).active as int],
                final(self).value@[old(self).active as int],
            ),
            final(self).value@[old(self).active as int].method == old(self).value@[old(
                self,
            ).active as int].method.spec_next(),
            forall|j: int|
                0 <= j < old(self).value@.len() && j != old(self).active ==> final(self).value@[j]
                    == old(self).value@[j],
            final(self).wf(),
    {
        let i = self.active;
        let m = self.value[i].method.next();
        self.value[i].method = m;
    }

    /// Steps the active definition's method backward in its cycle.
    pub fn set_previous_method(&mut self)
        requires
            old(self).wf(),
            old(self).value@.len() > 0,
        ensures
            final(self).active == old(self).active,
            final(self).value@.len() == old(self).value@.len(),
            same_but_method(
                old(self).value@[old(self).active as int],
                final(self).value@[old(self).active as int],
            ),
            final(self).value@[old(self).active as int].method == old(self).value@[old(
                self,
            ).active as int].method.spec_previous(),
            forall|j: int|
                0 <= j < old(self).value@.len() && j != old(self).active ==> final(self).value@[j]
                    == old(self).value@[j],
            final(self).wf(),
    {
        let i = self.active;
        let m = self.value[i].method.previous();
        self.value[i].method = m;
    }

    /// Appends a character to the active definition's path.
    pub fn push_to_path(&mut self, c: char)
        requires
            old(self).wf(),
            old(self).value@.len() > 0,
        ensures
            final(self).active == old(self).active,
            final(self).value@.len() == old(self).value@.len(),
            same_but_path(
                old(self).value@[old(self).active as int],
                final(self).value@[old(self).active as int],
            ),
            final(self).value@[old(self).active as int].path@ == pushed(
                old(self).value@[old(self).active as int].path@,
                c,
            ),
            forall|j: int|
                0 <= j < old(self).value@.len() && j != old(self).active ==> final(self).value@[j]
                    == old(self).value@[j],
            final(self).wf(),
    {
        let i = self.active;
        string_push(&mut self.value[i].path, c);
    }

    /// Removes the last character of the active definition's path, if any.
    pub fn pop_path(&mut self)
        requires
            old(self).wf(),
            old(self).value@.len() > 0,
        ensures
            final(self).active == old(self).active,
            final(self).value@.len() == old(self).value@.len(),
            same_but_path(
                old(self).value@[old(self).active as int],
                final(self).value@[old(self).active as int],
            ),
            final(self).value@[old(self).active as int].path@ == popped(
                old(self).value@[old(self).active as int].path@,
            ),
            forall|j: int|
                0 <= j < old(self).value@.len() && j != old(self).active ==> final(self).value@[j]
                    == old(self).value@[j],
            final(self).wf(),
    {
        let i = self.active;
        string_pop(&mut self.value[i].path);
    }

    /// Empties the active definition's path.
    pub fn clear_path(&mut self)
        requires
            old(self).wf(),
            old(self).value@.len() > 0,
        ensures
            final(self).active == old(self).active,
            final(self).value@.len() == old(self).value@.len(),
            same_but_path(
                old(self).value@[old(self).active as int],
                final(self).value@[old(self).active as int],
            ),
            final(self).value@[old(self).active as int].path@ == Seq::<char>::empty(),
            forall|j: int|
                0 <= j < old(self).value@.len() && j != old(self).active ==> final(self).value@[j]
                    == old(self).value@[j],
            final(self).wf(),
    {
        let i = self.active;
        string_clear(&mut self.value[i].path);
    }

    /// Appends a character to the active definition's query text.
    pub fn push_to_querystring(&mut self, c: char)
        requires
            old(self).wf(),
            old(self).value@.len() > 0,
        ensures
            final(self).active == old(self).active,
            final(self).value@.len() == old(self).value@.len(),
            same_but_query(
                old(self).value@[old(self).active as int],
                final(self).value@[old(self).active as int],
            ),
            final(self).value@[old(self).active as int].query@ == pushed(
                old(self).value@[old(self).active as int].query@,
                c,
            ),
            forall|j: int|
                0 <= j < old(self).value@.len() && j != old(self).active ==> final(self).value@[j]
                    == old(self).value@[j],
            final(self).wf(),
    {
        let i = self.active;
        string_push(&mut self.value[i].query, c);
    }

    /// Removes the last character of the active definition's query text.
    pub fn pop_querystring(&mut self)
        requires
            old(self).wf(),
            old(self).value@.len() > 0,
        ensures
            final(self).active == old(self).active,
            final(self).value@.len() == old(self).value@.len(),
            same_but_query(
                old(self).value@[old(self).active as int],
                final(self).value@[old(self).active as int],
            ),
            final(self).value@[old(self).active as int].query@ == popped(
                old(self).value@[old(self).active as int].query@,
            ),
            forall|j: int|
                0 <= j < old(self).value@.len() && j != old(self).active ==> final(self).value@[j]
                    == old(self).value@[j],
            final(self).wf(),
    {
        let i = self.active;
        string_pop(&mut self.value[i].query);
    }

    /// Empties the active definition's query text.
    pub fn clear_querystring(&mut self)
        requires
            old(self).wf(),
            old(self).value@.len() > 0,
        ensures
            final(self).active == old(self).active,
            final(self).value@.len() == old(self).value@.len(),
            same_but_query(
                old(self).value@[old(self).active as int],
                final(self).value@[old(self).active as int],
            ),
            final(self).value@[old(self).active as int].query@ == Seq::<char>::empty(),
            forall|j: int|
                0 <= j < old(self).value@.len() && j != old(self).active ==> final(self).value@[j]
                    == old(self).value@[j],
            final(self).wf(),
    {
        let i = self.active;
        string_clear(&mut self.value[i].query);
    }

    /// Appends a character to the active definition's payload.
    pub fn push_to_payload(&mut self, c: char)
        requires
            old(self).wf(),
            old(self).value@.len() > 0,
        ensures
            final(self).active == old(self).active,
            final(self).value@.len() == old(self).value@.len(),
            same_but_payload(
                old(self).value@[old(self).active as int],
                final(self).value@[old(self).active as int],
            ),
            final(self).value@[old(self).active as int].payload@ == pushed(
                old(self).value@[old(self).active as int].payload@,
                c,
            ),
            forall|j: int|
                0 <= j < old(self).value@.len() && j != old(self).active ==> final(self).value@[j]
                    == old(self).value@[j],
            final(self).wf(),
    {
        let i = self.active;
        string_push(&mut self.value[i].payload, c);
    }

    /// Removes the last character of the active definition's payload.
    pub fn pop_payload(&mut self)
        requires
            old(self).wf(),
            old(self).value@.len() > 0,
        ensures
            final(self).active == old(self).active,
            final(self).value@.len() == old(self).value@.len(),
            same_but_payload(
                old(self).value@[old(self).active as int],
                final(self).value@[old(self).active as int],
            ),
            final(self).value@[old(self).active as int].payload@ == popped(
                old(self).value@[old(self).active as int].payload@,
            ),
            forall|j: int|
                0 <= j < old(self).value@.len() && j != old(self).active ==> final(self).value@[j]
                    == old(self).value@[j],
            final(self).wf(),
    {
        let i = self.active;
        string_pop(&mut self.value[i].payload);
    }

    /// Empties the active definition's payload.
    pub fn clear_payload(&mut self)
        requires
            old(self).wf(),
            old(self).value@.len() > 0,
        ensures
            final(self).active == old(self).active,
            final(self).value@.len() == old(self).value@.len(),
            same_but_payload(
                old(self).value@[old(self).active as int],
                final(self).value@[old(self).active as int],
            ),
            final(self).value@[old(self).active as int].payload@ == Seq::<char>::empty(),
            forall|j: int|
                0 <= j < old(self).value@.len() && j != old(self).active ==> final(self).value@[j]
                    == old(self).value@[j],
            final(self).wf(),
    {
        let i = self.active;
        string_clear(&mut self.value[i].payload);
    }

    /// Appends a character to the active definition's header text.
    pub fn push_to_headers(&mut self, c: char)
        requires
            old(self).wf(),
            old(self).value@.len() > 0,
        ensures
            final(self).active == old(self).active,
            final(self).value@.len() == old(self).value@.len(),
            same_but_headers(
                old(self).value@[old(self).active as int],
                final(self).value@[old(self).active as int],
            ),
            final(self).value@[old(self).active as int].headers@ == pushed(
                old(self).value@[old(self).active as int].headers@,
                c,
            ),
            forall|j: int|
                0 <= j < old(self).value@.len() && j != old(self).active ==> final(self).value@[j]
                    == old(self).value@[j],
            final(self).wf(),
    {
        let i = self.active;
        string_push(&mut self.value[i].headers, c);
    }

    /// Removes the last character of the active definition's header text.
    pub fn pop_headers(&mut self)
        requires
            old(self).wf(),
            old(self).value@.len() > 0,
        ensures
            final(self).active == old(self).active,
            final(self).value@.len() == old(self).value@.len(),
            same_but_headers(
                old(self).value@[old(self).active as int],
                final(self).value@[old(self).active as int],
            ),
            final(self).value@[old(self).active as int].headers@ == popped(
                old(self).value@[old(self).active as int].headers@,
            ),
            forall|j: int|
                0 <= j < old(self).value@.len() && j != old(self).active ==> final(self).value@[j]
                    == old(self).value@[j],
            final(self).wf(),
    {
        let i = self.active;
        string_pop(&mut self.value[i].headers);
    }

    /// Empties the active definition's header text.
    pub fn clear_headers(&mut self)
        requires
            old(self).wf(),
            old(self).value@.len() > 0,
        ensures
            final(self).active == old(self).active,
            final(self).value@.len() == old(self).value@.len(),
            same_but_headers(
                old(self).value@[old(self).active as int],
                final(self).value@[old(self).active as int],
            ),
            final(self).value@[old(self).active as int].headers@ == Seq::<char>::empty(),
            forall|j: int|
                0 <= j < old(self).value@.len() && j != old(self).active ==> final(self).value@[j]
                    == old(self).value@[j],
            final(self).wf(),
    {
        let i = self.active;
        string_clear(&mut self.value[i].headers);
    }

    /// The whole list of definitions, in stored order.
    pub fn get_request_list(&self) -> (r: &Vec<RequestInput>)
        ensures
            r@ == self.value@,
    {
        &self.value
    }
}

impl Default for Requests {
    /// One default definition, selected.
    fn default() -> (r: Requests)
        ensures
            r.wf(),
            r.value@.len() == 1,
            is_bootstrap_request(r.value@[0]),
            r.active == 0,
    {
        let mut v: Vec<RequestInput> = Vec::new();
        v.push(RequestInput::default());
        Requests { value: v, active: 0 }
    }
}

} // verus!
