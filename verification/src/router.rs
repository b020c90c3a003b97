//! Method routing: the table from method names to handlers.
use vstd::prelude::*;

use crate::error::ServerError;
use crate::text::str_eq;

verus! {

/// The handlers of a router, by method name: each name at most once, in the
/// order the names were first registered.
pub struct HandlerTable<H> {
    entries: Vec<(String, H)>,
}

/// No method name occurs twice.
pub open spec fn names_unique<H>(s: Seq<(Seq<char>, H)>) -> bool {
    forall|i: int, j: int| 0 <= i < j < s.len() ==> #[trigger] s[i].0 != #[trigger] s[j].0
}

/// The position of the handler of `method`, if any.
pub open spec fn method_pos<H>(s: Seq<(Seq<char>, H)>, method: Seq<char>) -> Option<int> {
    if exists|i: int| 0 <= i < s.len() && s[i].0 == method {
        Some(choose|i: int| 0 <= i < s.len() && s[i].0 == method)
    } else {
        None
    }
}

/// The table after `method` is registered with `h`: its handler is
/// replaced, or it is added at the end.
pub open spec fn registered<H>(s: Seq<(Seq<char>, H)>, method: Seq<char>, h: H) -> Seq<
    (Seq<char>, H),
> {
    match method_pos(s, method) {
        Some(i) => s.update(i, (method, h)),
        None => s.push((method, h)),
    }
}

/// The names of a table's methods, in order.
pub open spec fn method_names<H>(s: Seq<(Seq<char>, H)>) -> Seq<Seq<char>> {
    s.map_values(|e: (Seq<char>, H)| e.0)
}

impl<H> HandlerTable<H> {
    /// The table's (name, handler) entries.
    pub closed spec fn entries_view(&self) -> Seq<(Seq<char>, H)> {
        self.entries@.map_values(|e: (String, H)| (e.0@, e.1))
    }

    /// The table's invariant.
    pub open spec fn wf(&self) -> bool {
        names_unique(self.entries_view())
    }

    /// An empty table.
    pub fn new() -> (t: Self)
        ensures
            t.wf(),
            t.entries_view() == Seq::<(Seq<char>, H)>::empty(),
    {
        let t = HandlerTable { entries: Vec::new() };
        assert(t.entries_view() =~= Seq::<(Seq<char>, H)>::empty());
        t
    }

    /// The position of the handler of `method`.
    fn find(&self, method: &str) -> (r: Option<usize>)
        requires
            self.wf(),
        ensures
            match r {
                Some(i) => method_pos(self.entries_view(), method@) == Some(i as int) && i
                    < self.entries_view().len(),
                None => method_pos(self.entries_view(), method@) is None,
            },
    {
        let ghost s = self.entries_view();
        let mut i: usize = 0;
        while i < self.entries.len()
            invariant
                s == self.entries_view(),
                s.len() == self.entries@.len(),
                names_unique(s),
                i <= self.entries.len(),
                forall|j: int| 0 <= j < i ==> s[j].0 != method@,
            decreases self.entries.len() - i,
        {
            assert(s[i as int] == (self.entries@[i as int].0@, self.entries@[i as int].1));
            if str_eq(self.entries[i].0.as_str(), method) {
                let ghost k = choose|k: int| 0 <= k < s.len() && s[k].0 == method@;
                proof {
                    if k < i {
                        assert(s[k].0 != s[i as int].0);
                    } else if k > i {
                        assert(s[i as int].0 != s[k].0);
                    }
                }
                return Some(i);
            }
            i = i + 1;
        }
        None
    }

    /// Registers `handler` for `method`, replacing an earlier one.
    pub fn register(&mut self, method: &str, handler: H)
        requires
            old(self).wf(),
        ensures
            final(self).wf(),
            final(self).entries_view() == registered(old(self).entries_view(), method@, handler),
    {
        let ghost s = self.entries_view();
        match self.find(method) {
            Some(i) => {
                let _ = self.entries.remove(i);
                self.entries.insert(i, (method.to_owned(), handler));
                assert(self.entries_view() =~= registered(s, method@, handler));
            },
            None => {
                self.entries.push((method.to_owned(), handler));
                assert(self.entries_view() =~= registered(s, method@, handler));
            },
        }
    }

    /// The handler of `method`, if registered.
    pub fn get(&self, method: &str) -> (r: Option<&H>)
        requires
            self.wf(),
        ensures
            match method_pos(self.entries_view(), method@) {
                Some(i) => r == Some(&self.entries_view()[i].1),
                None => r is None,
            },
    {
        match self.find(method) {
            Some(i) => {
                assert(self.entries_view()[i as int].1 == self.entries@[i as int].1);
                Some(&self.entries[i].1)
            },
            None => None,
        }
    }

    /// Whether `method` has a handler.
    pub fn has_method(&self, method: &str) -> (r: bool)
        requires
            self.wf(),
        ensures
            r == method_pos(self.entries_view(), method@) is Some,
    {
        self.find(method).is_some()
    }

    /// The registered method names, in the order they were first registered.
    pub fn methods(&self) -> (r: Vec<String>)
        ensures
            r@.map_values(|s: String| s@) == method_names(self.entries_view()),
    {
        let ghost s = self.entries_view();
        let mut r: Vec<String> = Vec::new();
        let mut i: usize = 0;
        while i < self.entries.len()
            invariant
                s == self.entries_view(),
                s.len() == self.entries@.len(),
                i <= self.entries.len(),
                r@.map_values(|x: String| x@) == method_names(s.take(i as int)),
            decreases self.entries.len() - i,
        {
            let ghost before = r@;
            r.push(self.entries[i].0.clone());
            assert(r@.map_values(|x: String| x@) =~= before.map_values(|x: String| x@).push(
                s[i as int].0,
            ));
            assert(method_names(s.take(i + 1)) =~= method_names(s.take(i as int)).push(s[i as int].0));
            i = i + 1;
        }
        assert(s.take(s.len() as int) =~= s);
        r
    }

    /// The handler to route `method` to, or the method-not-found error.
    pub fn resolve(&self, method: &str) -> (r: Result<&H, ServerError>)
        requires
            self.wf(),
        ensures
            match method_pos(self.entries_view(), method@) {
                Some(i) => r == Ok::<&H, ServerError>(&self.entries_view()[i].1),
                None => r is Err && r->Err_0 is MethodNotFound && r->Err_0->MethodNotFound_0@
                    == method@,
            },
    {
        match self.get(method) {
            Some(h) => Ok(h),
            None => Err(ServerError::MethodNotFound(method.to_owned())),
        }
    }
}

/// Registering a method makes it resolve to the new handler, and leaves
/// every other method's handler as it was.
pub proof fn lemma_register_then_resolve<H>(
    s: Seq<(Seq<char>, H)>,
    method: Seq<char>,
    h: H,
    other: Seq<char>,
)
    requires
        names_unique(s),
    ensures
        names_unique(registered(s, method, h)),
        method_pos(registered(s, method, h), method) matches Some(i) && registered(s, method, h)[i].1
            == h,
        other != method ==> match method_pos(s, other) {
            Some(j) => method_pos(registered(s, method, h), other) == Some(j),
            None => method_pos(registered(s, method, h), other) is None,
        },
{
    let t = registered(s, method, h);
    match method_pos(s, method) {
        Some(i) => {
            assert(s[i].0 == method);
            lemma_method_pos_at(t, method, i);
            if other != method {
                if let Some(j) = method_pos(s, other) {
                    assert(s[j].0 == other);
                    lemma_method_pos_at(t, other, j);
                } else {
                    assert(!exists|k: int| 0 <= k < t.len() && t[k].0 == other) by {
                        if exists|k: int| 0 <= k < t.len() && t[k].0 == other {
                            let k = choose|k: int| 0 <= k < t.len() && t[k].0 == other;
                            assert(s[k].0 == other);
                        }
                    }
                }
            }
        },
        None => {
            assert(names_unique(t)) by {
                assert forall|a: int, b: int| 0 <= a < b < t.len() implies #[trigger] t[a].0
                    != #[trigger] t[b].0 by {
                    if b == s.len() {
                        assert(t[a] == s[a]);
                    }
                }
            }
            lemma_method_pos_at(t, method, s.len() as int);
            if other != method {
                if let Some(j) = method_pos(s, other) {
                    assert(s[j].0 == other);
                    lemma_method_pos_at(t, other, j);
                } else {
                    assert(!exists|k: int| 0 <= k < t.len() && t[k].0 == other) by {
                        if exists|k: int| 0 <= k < t.len() && t[k].0 == other {
                            let k = choose|k: int| 0 <= k < t.len() && t[k].0 == other;
                            if k < s.len() {
                                assert(s[k].0 == other);
                            }
                        }
                    }
                }
            }
        },
    }
}

/// With unique names, the handler of `method` is at `i` when `s[i]` is its entry.
pub proof fn lemma_method_pos_at<H>(s: Seq<(Seq<char>, H)>, method: Seq<char>, i: int)
    requires
        names_unique(s),
        0 <= i < s.len(),
        s[i].0 == method,
    ensures
        method_pos(s, method) == Some(i),
{
    let k = choose|k: int| 0 <= k < s.len() && s[k].0 == method;
    if k < i {
        assert(s[k].0 != s[i].0);
    } else if k > i {
        assert(s[i].0 != s[k].0);
    }
}

} // verus!
