//! The binding store: a single mapping from identifier text to runtime
//! value. Re-declaration overwrites; lookups are single-level. Blocks bound
//! the lifetime of their declarations by cloning the store on entry and
//! restoring the clone on exit.

use vstd::prelude::*;
use vstd::string::StringExecFns;

use crate::error::{err_view, Error, ErrorType};
use crate::object::{Object, Val};
use crate::token::Token;

verus! {

pub struct Environment {
    values: Vec<(String, Object)>,
}

/// The message of an undefined-variable error names the identifier.
pub open spec fn undefined_variable_msg(name: Seq<char>) -> Seq<char> {
    "Undefined variable "@ + name
}

/// The mapping an association sequence denotes: later entries overwrite
/// earlier ones.
spec fn assoc_view(s: Seq<(String, Object)>) -> Map<Seq<char>, Val>
    decreases s,
{
    if s.len() == 0 {
        Map::empty()
    } else {
        assoc_view(s.drop_last()).insert(s.last().0@, s.last().1@)
    }
}

proof fn lemma_assoc_push(s: Seq<(String, Object)>, p: (String, Object))
    ensures
        assoc_view(s.push(p)) == assoc_view(s).insert(p.0@, p.1@),
{
    assert(s.push(p).drop_last() =~= s);
}

impl View for Environment {
    type V = Map<Seq<char>, Val>;

    closed spec fn view(&self) -> Map<Seq<char>, Val> {
        assoc_view(self.values@)
    }
}

impl Environment {
    pub fn new() -> (e: Environment)
        ensures
            e@ == Map::<Seq<char>, Val>::empty(),
    {
        Environment { values: Vec::new() }
    }

    /// An independent copy: mutating the copy never affects the original.
    pub fn clone(&self) -> (e: Environment)
        ensures
            e@ == self@,
    {
        let mut values: Vec<(String, Object)> = Vec::new();
        let n = self.values.len();
        let mut i: usize = 0;
        while i < n
            invariant
                n == self.values@.len(),
                i <= n,
                values@.len() == i,
                forall|j: int| 0 <= j < i ==> values@[j] == self.values@[j],
            decreases n - i,
        {
            let p = &self.values[i];
            values.push((p.0.clone(), p.1.clone()));
            i = i + 1;
        }
        proof {
            assert(values@ =~= self.values@);
        }
        Environment { values }
    }

    /// Inserts or overwrites the binding for `identifier` unconditionally.
    pub fn define(&mut self, identifier: &str, value: Object)
        ensures
            final(self)@ == old(self)@.insert(identifier@, value@),
    {
        let key = String::from_str(identifier);
        let ghost s0 = self.values@;
        let ghost p = (key, value);
        self.values.push((key, value));
        proof {
            lemma_assoc_push(s0, p);
        }
    }

    /// Looks the identifier's lexeme up; absent names are a runtime
    /// "undefined variable" error carrying the identifier's source line.
    pub fn access(&self, identifier: &Token) -> (r: Result<Object, Error>)
        ensures
            match r {
                Ok(v) => self@.contains_key(identifier@.lexeme) && v@ == self@[identifier@.lexeme],
                Err(e) => !self@.contains_key(identifier@.lexeme) && e@ == err_view(
                    identifier@.line,
                    ErrorType::RuntimeError,
                    undefined_variable_msg(identifier@.lexeme),
                ),
            },
    {
        let ghost key = identifier@.lexeme;
        let mut i = self.values.len();
        proof {
            assert(self.values@.subrange(0, i as int) =~= self.values@);
        }
        while i > 0
            invariant
                key == identifier@.lexeme,
                i <= self.values@.len(),
                assoc_view(self.values@).contains_key(key) == assoc_view(
                    self.values@.subrange(0, i as int),
                ).contains_key(key),
                assoc_view(self.values@).contains_key(key) ==> assoc_view(self.values@)[key]
                    == assoc_view(self.values@.subrange(0, i as int))[key],
            decreases i,
        {
            i = i - 1;
            proof {
                let s = self.values@;
                assert(s.subrange(0, i as int + 1).drop_last() =~= s.subrange(0, i as int));
                assert(s.subrange(0, i as int + 1).last() == s[i as int]);
                assert(assoc_view(s.subrange(0, i as int + 1)) == assoc_view(
                    s.subrange(0, i as int),
                ).insert(s[i as int].0@, s[i as int].1@));
            }
            if self.values[i].0 == identifier.lexeme {
                proof {
                    assert(self.values@[i as int].0@ == key);
                    assert(assoc_view(self.values@.subrange(0, i as int + 1)).contains_key(key));
                    assert(assoc_view(self.values@.subrange(0, i as int + 1))[key]
                        == self.values@[i as int].1@);
                }
                return Ok(self.values[i].1.clone());
            }
            proof {
                assert(self.values@[i as int].0@ != key);
                assert(assoc_view(self.values@.subrange(0, i as int + 1)).contains_key(key)
                    == assoc_view(self.values@.subrange(0, i as int)).contains_key(key));
            }
        }
        proof {
            assert(self.values@.subrange(0, 0) =~= Seq::<(String, Object)>::empty());
        }
        let mut msg = String::from_str("Undefined variable ");
        msg.append(identifier.lexeme.as_str());
        Err(Error::new(identifier.line, ErrorType::RuntimeError, msg.as_str()))
    }
}

} // verus!
