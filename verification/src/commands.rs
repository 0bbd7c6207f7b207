//! Commands: the providers that placeholders are resolved against, and the
//! map that registers them under their identifiers.

use crate::slots::{distinct, keyed, lemma_keyed_push, lemma_keyed_update, lemma_slot_at, slot};
use std::string::FromUtf8Error;
use vstd::prelude::*;
use vstd::utf8::{decode_utf8, valid_utf8};

verus! {

#[verifier::external_type_specification]
#[verifier::external_body]
pub struct ExFromUtf8Error(FromUtf8Error);

/// `String::from_utf8` accepts exactly the byte sequences that are UTF-8, and
/// the string it makes of one holds the characters that the bytes encode.
pub assume_specification[ String::from_utf8 ](vec: Vec<u8>) -> (r: Result<String, FromUtf8Error>)
    ensures
        r is Ok <==> valid_utf8(vec@),
        r is Ok ==> r->Ok_0@ == decode_utf8(vec@),
;

/// A provider of values. The resolver hands it the parts of a placeholder and
/// substitutes what it returns.
///
/// A command does not fail towards the resolver: where it cannot produce a
/// value it returns the default, or the empty string where there is none.
pub trait JakartaCommand {
    /// What the command may answer: asked with these arguments, a command in
    /// the state `self` may return `value` and be in the state `after`
    /// afterwards. Each command says this of itself; the resolver passes it
    /// on and claims nothing of it. A command that says nothing may answer
    /// anything.
    open spec fn answers(
        &self,
        after: &Self,
        command: Seq<char>,
        path: Seq<char>,
        field: Option<Seq<char>>,
        default_value: Option<Seq<char>>,
        value: Seq<char>,
    ) -> bool {
        true
    }

    fn process(
        &mut self,
        command: String,
        path: String,
        field: Option<String>,
        default_value: Option<String>,
    ) -> (value: String)
        ensures
            old(self).answers(
                final(self),
                command@,
                path@,
                field.deep_view(),
                default_value.deep_view(),
                value@,
            ),
    ;
}

/// The text that stands for "no value": the default where there is one, else
/// the empty text.
pub open spec fn fallback(default_value: Option<Seq<char>>) -> Seq<char> {
    match default_value {
        Some(d) => d,
        None => Seq::empty(),
    }
}

/// The default, or the empty string where there is none.
pub fn default_or_empty(default_value: Option<String>) -> (value: String)
    ensures
        value@ == fallback(default_value.deep_view()),
{
    match default_value {
        Some(d) => d,
        None => String::new(),
    }
}

/// The command that resolves a path to the environment variable of that
/// name. Reading the environment is the caller's part: what it found is
/// handed to [`EnvCommand::resolve`].
pub struct EnvCommand {}

impl EnvCommand {
    /// The value of a placeholder whose variable holds `value`: the value
    /// where the variable is set, else the default, else the empty string.
    pub fn resolve(value: Option<String>, default_value: Option<String>) -> (r: String)
        ensures
            r@ == match value {
                Some(v) => v@,
                None => fallback(default_value.deep_view()),
            },
    {
        match value {
            Some(v) => v,
            None => default_or_empty(default_value),
        }
    }
}

/// The text that a process has written, where its bytes are UTF-8.
pub open spec fn output_text(output: Option<Seq<u8>>) -> Option<Seq<char>> {
    match output {
        Some(bytes) => if valid_utf8(bytes) {
            Some(decode_utf8(bytes))
        } else {
            None
        },
        None => None,
    }
}

/// The command that resolves a path to what the shell prints when it runs
/// the path as a command line. Running the shell is the caller's part: what
/// it printed is handed to [`ShCommand::resolve`].
pub struct ShCommand {}

impl ShCommand {
    /// The value of a placeholder whose command line printed `output`, or
    /// could not be run where `output` is `None`: the output as text where
    /// there is one and it is UTF-8, else the default, else the empty string.
    pub fn resolve(output: Option<Vec<u8>>, default_value: Option<String>) -> (r: String)
        ensures
            r@ == match output_text(output.deep_view()) {
                Some(text) => text,
                None => fallback(default_value.deep_view()),
            },
    {
        match output {
            Some(bytes) => {
                proof {
                    assert(bytes.deep_view() =~= bytes@);
                }
                match String::from_utf8(bytes) {
                    Ok(text) => text,
                    Err(_) => default_or_empty(default_value),
                }
            },
            None => default_or_empty(default_value),
        }
    }
}

/// Commands by identifier. An identifier is registered once: inserting under
/// it again replaces the command.
pub struct CommandMap<C> {
    ids: Vec<String>,
    handlers: Vec<C>,
}

impl<C> View for CommandMap<C> {
    type V = Map<Seq<char>, C>;

    closed spec fn view(&self) -> Map<Seq<char>, C> {
        keyed(self.ids.deep_view(), self.handlers@)
    }
}

impl<C> CommandMap<C> {
    /// Every identifier has its command, and no identifier stands twice.
    pub closed spec fn wf(&self) -> bool {
        &&& self.ids.len() == self.handlers.len()
        &&& distinct(self.ids.deep_view())
    }

    /// A map without commands.
    pub fn new() -> (map: Self)
        ensures
            map.wf(),
            map@ == Map::<Seq<char>, C>::empty(),
    {
        let map = CommandMap { ids: Vec::new(), handlers: Vec::new() };
        proof {
            assert(map@ =~= Map::<Seq<char>, C>::empty());
        }
        map
    }

    /// Where the command registered under `id` stands.
    fn find(&self, id: &String) -> (found: Option<usize>)
        requires
            self.wf(),
        ensures
            match found {
                Some(i) => i < self.ids.len() && slot(self.ids.deep_view(), id@) == i,
                None => slot(self.ids.deep_view(), id@) == self.ids.len(),
            },
    {
        let ghost keys = self.ids.deep_view();
        let mut i: usize = 0;
        while i < self.ids.len()
            invariant
                self.wf(),
                keys == self.ids.deep_view(),
                i <= self.ids.len(),
                forall|k: int| 0 <= k < i ==> keys[k] != id@,
            decreases self.ids.len() - i,
        {
            proof {
                assert(keys[i as int] == self.ids[i as int]@);
            }
            if self.ids[i] == *id {
                proof {
                    lemma_slot_at(keys, i as int);
                }
                return Some(i);
            }
            i += 1;
        }
        None
    }

    /// Whether a command is registered under `id`.
    pub fn contains_key(&self, id: &str) -> (b: bool)
        requires
            self.wf(),
        ensures
            b == self@.contains_key(id@),
    {
        let key = id.to_owned();
        self.find(&key).is_some()
    }

    /// Registers `command` under `id`, and returns the command that was
    /// registered under it before.
    pub fn insert(&mut self, id: String, command: C) -> (replaced: Option<C>)
        requires
            old(self).wf(),
        ensures
            final(self).wf(),
            final(self)@ == old(self)@.insert(id@, command),
            replaced == if old(self)@.contains_key(id@) {
                Some(old(self)@[id@])
            } else {
                None
            },
    {
        let ghost keys = self.ids.deep_view();
        let ghost values = self.handlers@;
        match self.find(&id) {
            Some(i) => {
                let mut command = command;
                std::mem::swap(&mut self.handlers[i], &mut command);
                proof {
                    lemma_slot_at(keys, i as int);
                    assert(self.handlers@ =~= values.update(i as int, self.handlers@[i as int]));
                    lemma_keyed_update(keys, values, i as int, self.handlers@[i as int]);
                }
                Some(command)
            },
            None => {
                let ghost key = id@;
                self.ids.push(id);
                self.handlers.push(command);
                proof {
                    assert(self.ids.deep_view() =~= keys.push(key));
                    lemma_keyed_push(keys, values, key, command);
                }
                None
            },
        }
    }
}

impl<C: JakartaCommand> CommandMap<C> {
    /// Asks the command registered under `command` for a value, with exactly
    /// the arguments given, and returns its answer. Where none is
    /// registered, nothing is asked.
    ///
    /// No other command is touched, and none is added or removed.
    pub fn dispatch(
        &mut self,
        command: String,
        path: String,
        field: Option<String>,
        default_value: Option<String>,
    ) -> (value: Option<String>)
        requires
            old(self).wf(),
        ensures
            final(self).wf(),
            value is Some <==> old(self)@.contains_key(command@),
            value is Some ==> old(self)@[command@].answers(
                &final(self)@[command@],
                command@,
                path@,
                field.deep_view(),
                default_value.deep_view(),
                value->0@,
            ),
            value is None ==> *final(self) == *old(self),
            final(self)@.dom() == old(self)@.dom(),
            forall|id: Seq<char>|
                id != command@ && old(self)@.contains_key(id) ==> #[trigger] final(self)@[id]
                    == old(self)@[id],
    {
        let ghost before = *self;
        match self.find(&command) {
            Some(i) => {
                let value = self.handlers[i].process(command, path, field, default_value);
                proof {
                    assert(self@.dom() =~= before@.dom());
                }
                Some(value)
            },
            None => None,
        }
    }
}

} // verus!
