//! The repository: the persisted aggregate of environment, server list and
//! request collection, with the read and mutation operations every other
//! component goes through.

use vstd::prelude::*;

use crate::method::HttpMethod;
use crate::request::{
    is_bootstrap_request, popped, pushed, same_but_headers, same_but_method, same_but_path,
    same_but_payload, same_but_query, RequestInput, Requests,
};
use crate::servers::Servers;
use crate::strmap::StrMap;

verus! {

/// The empty string, the default for a stored request's rule text.
pub fn emtpy_string() -> (r: String)
    ensures
        r@ == Seq::<char>::empty(),
{
    String::new()
}

/// The empty environment, the default when a document carries none.
pub fn default_env() -> (r: StrMap)
    ensures
        r.wf(),
        r.spec_pairs() == Seq::<(Seq<char>, Seq<char>)>::empty(),
{
    StrMap::new()
}

/// The whole persisted workspace: environment, servers, requests.
pub struct LocalStorageRepository {
    pub env: StrMap,
    pub servers: Servers,
    pub requests: Requests,
}

impl LocalStorageRepository {
    pub open spec fn wf(self) -> bool {
        self.env.wf() && self.servers.wf() && self.requests.wf()
    }

    /// The document a fresh workspace starts from: an empty environment,
    /// one local server, one default request.
    pub fn bootstrap() -> (r: LocalStorageRepository)
        ensures
            r.wf(),
            r.env.spec_pairs() == Seq::<(Seq<char>, Seq<char>)>::empty(),
            r.servers.value@.len() == 1,
            r.servers.value@[0]@ == "http://localhost"@,
            r.servers.active == 0,
            r.requests.value@.len() == 1,
            is_bootstrap_request(r.requests.value@[0]),
            r.requests.active == 0,
    {
        let mut servers = Servers::default();
        servers.add_server(String::from_str("http://localhost"));
        LocalStorageRepository { env: StrMap::new(), servers, requests: Requests::default() }
    }

    /// The active request's method.
    pub fn get_method(&self) -> (r: HttpMethod)
        requires
            self.wf(),
        ensures
            self.requests.value@.len() > 0 ==> r == self.requests.value@[self.requests.active as int].method,
            self.requests.value@.len() == 0 ==> r == HttpMethod::GET,
    {
        self.requests.get_active().method
    }

    /// The active server's URL.
    pub fn get_server(&self) -> (r: String)
        requires
            self.wf(),
            self.servers.value@.len() > 0,
        ensures
            r@ == self.servers.value@[self.servers.active as int]@,
    {
        self.servers.get_active()
    }

    /// Appends a character to the active server's URL.
    pub fn push_to_server(&mut self, c: char)
        requires
            old(self).wf(),
            old(self).servers.value@.len() > 0,
        ensures
            final(self).wf(),
            final(self).env == old(self).env,
            final(self).requests == old(self).requests,
            final(self).servers.active == old(self).servers.active,
            final(self).servers.value@[old(self).servers.active as int]@ == old(
                self,
            ).servers.value@[old(self).servers.active as int]@.push(c),
    {
        self.servers.handle_char(c);
    }

    /// Removes the last character of the active server's URL.
    pub fn pop_server(&mut self)
        requires
            old(self).wf(),
            old(self).servers.value@.len() > 0,
        ensures
            final(self).wf(),
            final(self).env == old(self).env,
            final(self).requests == old(self).requests,
            final(self).servers.active == old(self).servers.active,
            final(self).servers.value@[old(self).servers.active as int]@ == popped(
                old(self).servers.value@[old(self).servers.active as int]@,
            ),
    {
        self.servers.pop();
    }

    /// Empties the active server's URL.
    pub fn clear_server(&mut self)
        requires
            old(self).wf(),
            old(self).servers.value@.len() > 0,
        ensures
            final(self).wf(),
            final(self).env == old(self).env,
            final(self).requests == old(self).requests,
            final(self).servers.active == old(self).servers.active,
            final(self).servers.value@[old(self).servers.active as int]@ == Seq::<char>::empty(),
    {
        self.servers.clear();
    }

    /// The active request's query text.
    pub fn get_query(&self) -> (r: String)
        requires
            self.wf(),
        ensures
            self.requests.value@.len() > 0 ==> r@ == self.requests.value@[self.requests.active as int].query@,
            self.requests.value@.len() == 0 ==> r@ == Seq::<char>::empty(),
    {
        self.requests.get_active().query
    }

    /// The active request's payload.
    pub fn get_payload(&self) -> (r: String)
        requires
            self.wf(),
        ensures
            self.requests.value@.len() > 0 ==> r@ == self.requests.value@[self.requests.active as int].payload@,
            self.requests.value@.len() == 0 ==> r@ == Seq::<char>::empty(),
    {
        self.requests.get_active().payload
    }

    /// The active request's header text.
    pub fn get_headers(&self) -> (r: String)
        requires
            self.wf(),
        ensures
            self.requests.value@.len() > 0 ==> r@ == self.requests.value@[self.requests.active as int].headers@,
            self.requests.value@.len() == 0 ==> r@ == Seq::<char>::empty(),
    {
        self.requests.get_active().headers
    }

    /// The active request's path.
    pub fn get_path(&self) -> (r: String)
        requires
            self.wf(),
        ensures
            self.requests.value@.len() > 0 ==> r@ == self.requests.value@[self.requests.active as int].path@,
            self.requests.value@.len() == 0 ==> r@ == Seq::<char>::empty(),
    {
        self.requests.get_active().path
    }

    /// The active request's extraction-rule text.
    pub fn get_parsing_rules(&self) -> (r: String)
        requires
            self.wf(),
        ensures
            self.requests.value@.len() > 0 ==> r@ == self.requests.value@[self.requests.active as int].parsing_rules@,
            self.requests.value@.len() == 0 ==> r@ == Seq::<char>::empty(),
    {
        self.requests.get_active().parsing_rules
    }

    /// Steps the active request's method forward in its cycle.
    pub fn set_next_method(&mut self)
        requires
            old(self).wf(),
            old(self).requests.value@.len() > 0,
        ensures
            final(self).wf(),
            final(self).env == old(self).env,
            final(self).servers == old(self).servers,
            final(self).requests.active == old(self).requests.active,
            final(self).requests.value@[old(self).requests.active as int].method == old(
                self,
            ).requests.value@[old(self).requests.active as int].method.spec_next(),
            same_but_method(
                old(self).requests.value@[old(self).requests.active as int],
                final(self).requests.value@[old(self).requests.active as int],
            ),
    {
        self.requests.set_next_method();
    }

    /// Steps the active request's method backward in its cycle.
    pub fn set_previous_method(&mut self)
        requires
            old(self).wf(),
            old(self).requests.value@.len() > 0,
        ensures
            final(self).wf(),
            final(self).env == old(self).env,
            final(self).servers == old(self).servers,
            final(self).requests.active == old(self).requests.active,
            final(self).requests.value@[old(self).requests.active as int].method == old(
                self,
            ).requests.value@[old(self).requests.active as int].method.spec_previous(),
            same_but_method(
                old(self).requests.value@[old(self).requests.active as int],
                final(self).requests.value@[old(self).requests.active as int],
            ),
    {
        self.requests.set_previous_method();
    }

    /// Appends a character to the active request's path.
    pub fn push_to_path(&mut self, c: char)
        requires
            old(self).wf(),
            old(self).requests.value@.len() > 0,
        ensures
            final(self).wf(),
            final(self).env == old(self).env,
            final(self).servers == old(self).servers,
            final(self).requests.active == old(self).requests.active,
            final(self).requests.value@[old(self).requests.active as int].path@ == pushed(
                old(self).requests.value@[old(self).requests.active as int].path@,
                c,
            ),
            same_but_path(
                old(self).requests.value@[old(self).requests.active as int],
                final(self).requests.value@[old(self).requests.active as int],
            ),
    {
        self.requests.push_to_path(c);
    }

    /// Removes the last character of the active request's path.
    pub fn pop_path(&mut self)
        requires
            old(self).wf(),
            old(self).requests.value@.len() > 0,
        ensures
            final(self).wf(),
            final(self).env == old(self).env,
            final(self).servers == old(self).servers,
            final(self).requests.active == old(self).requests.active,
            final(self).requests.value@[old(self).requests.active as int].path@ == popped(
                old(self).requests.value@[old(self).requests.active as int].path@,
            ),
            same_but_path(
                old(self).requests.value@[old(self).requests.active as int],
                final(self).requests.value@[old(self).requests.active as int],
            ),
    {
        self.requests.pop_path();
    }

    /// Empties the active request's path.
    pub fn clear_path(&mut self)
        requires
            old(self).wf(),
            old(self).requests.value@.len() > 0,
        ensures
            final(self).wf(),
            final(self).env == old(self).env,
            final(self).servers == old(self).servers,
            final(self).requests.active == old(self).requests.active,
            final(self).requests.value@[old(self).requests.active as int].path@ == Seq::<
                char,
            >::empty(),
            same_but_path(
                old(self).requests.value@[old(self).requests.active as int],
                final(self).requests.value@[old(self).requests.active as int],
            ),
    {
        self.requests.clear_path();
    }

    /// Appends a character to the active request's query text.
    pub fn push_to_querystring(&mut self, c: char)
        requires
            old(self).wf(),
            old(self).requests.value@.len() > 0,
        ensures
            final(self).wf(),
            final(self).env == old(self).env,
            final(self).servers == old(self).servers,
            final(self).requests.active == old(self).requests.active,
            final(self).requests.value@[old(self).requests.active as int].query@ == pushed(
                old(self).requests.value@[old(self).requests.active as int].query@,
                c,
            ),
            same_but_query(
                old(self).requests.value@[old(self).requests.active as int],
                final(self).requests.value@[old(self).requests.active as int],
            ),
    {
        self.requests.push_to_querystring(c);
    }

    /// Removes the last character of the active request's query text.
    pub fn pop_querystring(&mut self)
        requires
            old(self).wf(),
            old(self).requests.value@.len() > 0,
        ensures
            final(self).wf(),
            final(self).env == old(self).env,
            final(self).servers == old(self).servers,
            final(self).requests.active == old(self).requests.active,
            final(self).requests.value@[old(self).requests.active as int].query@ == popped(
                old(self).requests.value@[old(self).requests.active as int].query@,
            ),
            same_but_query(
                old(self).requests.value@[old(self).requests.active as int],
                final(self).requests.value@[old(self).requests.active as int],
            ),
    {
        self.requests.pop_querystring();
    }

    /// Empties the active request's query text.
    pub fn clear_querystring(&mut self)
        requires
            old(self).wf(),
            old(self).requests.value@.len() > 0,
        ensures
            final(self).wf(),
            final(self).env == old(self).env,
            final(self).servers == old(self).servers,
            final(self).requests.active == old(self).requests.active,
            final(self).requests.value@[old(self).requests.active as int].query@ == Seq::<
                char,
            >::empty(),
            same_but_query(
                old(self).requests.value@[old(self).requests.active as int],
                final(self).requests.value@[old(self).requests.active as int],
            ),
    {
        self.requests.clear_querystring();
    }

    /// Appends a character to the active request's payload.
    pub fn push_to_payload(&mut self, c: char)
        requires
            old(self).wf(),
            old(self).requests.value@.len() > 0,
        ensures
            final(self).wf(),
            final(self).env == old(self).env,
            final(self).servers == old(self).servers,
            final(self).requests.active == old(self).requests.active,
            final(self).requests.value@[old(self).requests.active as int].payload@ == pushed(
                old(self).requests.value@[old(self).requests.active as int].payload@,
                c,
            ),
            same_but_payload(
                old(self).requests.value@[old(self).requests.active as int],
                final(self).requests.value@[old(self).requests.active as int],
            ),
    {
        self.requests.push_to_payload(c);
    }

    /// Removes the last character of the active request's payload.
    pub fn pop_payload(&mut self)
        requires
            old(self).wf(),
            old(self).requests.value@.len() > 0,
        ensures
            final(self).wf(),
            final(self).env == old(self).env,
            final(self).servers == old(self).servers,
            final(self).requests.active == old(self).requests.active,
            final(self).requests.value@[old(self).requests.active as int].payload@ == popped(
                old(self).requests.value@[old(self).requests.active as int].payload@,
            ),
            same_but_payload(
                old(self).requests.value@[old(self).requests.active as int],
                final(self).requests.value@[old(self).requests.active as int],
            ),
    {
        self.requests.pop_payload();
    }

    /// Empties the active request's payload.
    pub fn clear_payload(&mut self)
        requires
            old(self).wf(),
            old(self).requests.value@.len() > 0,
        ensures
            final(self).wf(),
            final(self).env == old(self).env,
            final(self).servers == old(self).servers,
            final(self).requests.active == old(self).requests.active,
            final(self).requests.value@[old(self).requests.active as int].payload@ == Seq::<
                char,
            >::empty(),
            same_but_payload(
                old(self).requests.value@[old(self).requests.active as int],
                final(self).requests.value@[old(self).requests.active as int],
            ),
    {
        self.requests.clear_payload();
    }

    /// Appends a character to the active request's header text.
    pub fn push_to_headers(&mut self, c: char)
        requires
            old(self).wf(),
            old(self).requests.value@.len() > 0,
        ensures
            final(self).wf(),
            final(self).env == old(self).env,
            final(self).servers == old(self).servers,
            final(self).requests.active == old(self).requests.active,
            final(self).requests.value@[old(self).requests.active as int].headers@ == pushed(
                old(self).requests.value@[old(self).requests.active as int].headers@,
                c,
            ),
            same_but_headers(
                old(self).requests.value@[old(self).requests.active as int],
                final(self).requests.value@[old(self).requests.active as int],
            ),
    {
        self.requests.push_to_headers(c);
    }

    /// Removes the last character of the active request's header text.
    pub fn pop_headers(&mut self)
        requires
            old(self).wf(),
            old(self).requests.value@.len() > 0,
        ensures
            final(self).wf(),
            final(self).env == old(self).env,
            final(self).servers == old(self).servers,
            final(self).requests.active == old(self).requests.active,
            final(self).requests.value@[old(self).requests.active as int].headers@ == popped(
                old(self).requests.value@[old(self).requests.active as int].headers@,
            ),
            same_but_headers(
                old(self).requests.value@[old(self).requests.active as int],
                final(self).requests.value@[old(self).requests.active as int],
            ),
    {
        self.requests.pop_headers();
    }

    /// Empties the active request's header text.
    pub fn clear_headers(&mut self)
        requires
            old(self).wf(),
            old(self).requests.value@.len() > 0,
        ensures
            final(self).wf(),
            final(self).env == old(self).env,
            final(self).servers == old(self).servers,
            final(self).requests.active == old(self).requests.active,
            final(self).requests.value@[old(self).requests.active as int].headers@ == Seq::<
                char,
            >::empty(),
            same_but_headers(
                old(self).requests.value@[old(self).requests.active as int],
                final(self).requests.value@[old(self).requests.active as int],
            ),
    {
        self.requests.clear_headers();
    }

    /// The whole list of stored requests.
    pub fn get_request_list(&self) -> (r: &Vec<RequestInput>)
        ensures
            r@ == self.requests.value@,
    {
        self.requests.get_request_list()
    }

    /// The index of the active request.
    pub fn get_active_request_idx(&self) -> (r: usize)
        ensures
            r == self.requests.active,
    {
        self.requests.active
    }

    /// Appends a fresh default request; the selection is unchanged.
    pub fn add_request(&mut self)
        requires
            old(self).wf(),
        ensures
            final(self).wf(),
            final(self).env == old(self).env,
            final(self).servers == old(self).servers,
            final(self).requests.active == old(self).requests.active,
            final(self).requests.value@.len() == old(self).requests.value@.len() + 1,
            final(self).requests.value@.take(old(self).requests.value@.len() as int) == old(
                self,
            ).requests.value@,
            is_bootstrap_request(final(self).requests.value@.last()),
    {
        let ghost before = self.requests.value@;
        self.requests.add(RequestInput::default());
        proof {
            assert(self.requests.value@.take(before.len() as int) =~= before);
        }
    }

    /// Removes the active request.
    pub fn delete_request(&mut self)
        requires
            old(self).wf(),
            old(self).requests.value@.len() > 0,
        ensures
            final(self).wf(),
            final(self).env == old(self).env,
            final(self).servers == old(self).servers,
            final(self).requests.value@ == old(self).requests.value@.remove(
                old(self).requests.active as int,
            ),
            final(self).requests.active == if old(self).requests.value@.len() == 1 || old(
                self,
            ).requests.active == 0 {
                0int
            } else if old(self).requests.active == old(self).requests.value@.len() - 1 {
                old(self).requests.active - 1
            } else {
                old(self).requests.active as int
            },
    {
        self.requests.delete_active();
    }

    /// Appends a copy of the active request; the selection is unchanged.
    pub fn duplicate_request(&mut self)
        requires
            old(self).wf(),
        ensures
            final(self).wf(),
            final(self).env == old(self).env,
            final(self).servers == old(self).servers,
            final(self).requests.active == old(self).requests.active,
            final(self).requests.value@.len() == old(self).requests.value@.len() + 1,
            final(self).requests.value@.take(old(self).requests.value@.len() as int) == old(
                self,
            ).requests.value@,
            old(self).requests.value@.len() > 0 ==> final(self).requests.value@.last() == old(
                self,
            ).requests.value@[old(self).requests.active as int],
            old(self).requests.value@.len() == 0 ==> is_bootstrap_request(
                final(self).requests.value@.last(),
            ),
    {
        let ghost before = self.requests.value@;
        let copy = self.requests.get_active();
        self.requests.add(copy);
        proof {
            assert(self.requests.value@.take(before.len() as int) =~= before);
        }
    }

    /// Selects the next request, wrapping past the end.
    pub fn next_request(&mut self)
        requires
            old(self).wf(),
        ensures
            final(self).wf(),
            final(self).env == old(self).env,
            final(self).servers == old(self).servers,
            final(self).requests.value == old(self).requests.value,
            final(self).requests.active == if old(self).requests.value@.len() == 0 {
                0int
            } else if old(self).requests.active == old(self).requests.value@.len() - 1 {
                0int
            } else {
                old(self).requests.active + 1
            },
    {
        self.requests.next();
    }

    /// Selects the previous request, wrapping past the start.
    pub fn previous_request(&mut self)
        requires
            old(self).wf(),
        ensures
            final(self).wf(),
            final(self).env == old(self).env,
            final(self).servers == old(self).servers,
            final(self).requests.value == old(self).requests.value,
            final(self).requests.active == if old(self).requests.value@.len() == 0 {
                0int
            } else if old(self).requests.active == 0 {
                old(self).requests.value@.len() - 1
            } else {
                old(self).requests.active - 1
            },
    {
        self.requests.previous();
    }
}

} // verus!
