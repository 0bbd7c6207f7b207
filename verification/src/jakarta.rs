//! The resolver: it scans a text for placeholders, asks the registered
//! commands for their values and substitutes them, pass after pass, until
//! nothing is left to resolve.

use crate::commands::{CommandMap, JakartaCommand};
use crate::matcher::{
    found_in, placeholders, regex_compiles, Matcher, Placeholder, PlaceholderMatch,
    PLACEHOLDER_PATTERN,
};
use crate::passes::{
    apply_values, exclusion_only, is_exclusion_only, lemma_pass_exclusion_only,
    lemma_pass_shorter, pass_text, strip_exclusions, unescaped_text, values_shorter,
};
use vstd::prelude::*;

verus! {

/// Why a resolver could not be built.
#[derive(Debug)]
pub enum JakartaError {
    /// The placeholder grammar did not compile.
    RegexCompilation(regex::Error),
}

impl JakartaError {
    /// The error in words.
    pub fn message(&self) -> (text: String)
        ensures
            text@ == "failed to compile regex"@,
    {
        "failed to compile regex".to_owned()
    }
}

/// How an interpolation ended.
#[derive(Debug, Clone, PartialEq, Eq)]
pub enum Interpolation {
    /// Nothing is left to resolve: the text is final.
    Resolved(String),
    /// The passes that were allowed are used up and the text still holds a
    /// placeholder to resolve. The text is as the last pass left it, and
    /// interpolating it goes on where this call stopped.
    Unfinished(String),
}

/// A command is asked for the value of `p`: the placeholder is not escaped,
/// names a command and a path, and the command is registered.
pub open spec fn resolvable(ids: Set<Seq<char>>, p: Placeholder) -> bool {
    &&& !p.escaped()
    &&& p.well_formed()
    &&& ids.contains(p.command->0)
}

/// The command registered under `id` is asked for the value of one of the
/// placeholders of `found`.
pub open spec fn asked(ids: Set<Seq<char>>, found: Seq<Placeholder>, id: Seq<char>) -> bool {
    exists|i: int|
        0 <= i < found.len() && resolvable(ids, #[trigger] found[i]) && found[i].command == Some(
            id,
        )
}

/// One placeholder is resolved: `value` is its value where the commands
/// were `before` and are `after`.
///
/// Where a command is asked, the value is an answer of that command to the
/// placeholder's command, path, field and default, the command goes from its
/// state in `before` to its state in `after` by that answer, and no other
/// command changes. Where none is asked, the value is empty and no command
/// changes.
pub open spec fn answered<C: JakartaCommand>(
    before: Map<Seq<char>, C>,
    p: Placeholder,
    value: Seq<char>,
    after: Map<Seq<char>, C>,
) -> bool {
    if resolvable(before.dom(), p) {
        &&& after.dom() == before.dom()
        &&& before[p.command->0].answers(
            &after[p.command->0],
            p.command->0,
            p.path->0,
            p.field,
            p.default_value,
            value,
        )
        &&& forall|id: Seq<char>|
            before.contains_key(id) && p.command != Some(id) ==> #[trigger] after[id]
                == before[id]
    } else {
        value.len() == 0 && after == before
    }
}

/// The placeholder at `k` is resolved from the commands `states[k]` to the
/// commands `states[k + 1]`.
pub open spec fn answered_at<C: JakartaCommand>(
    states: Seq<Map<Seq<char>, C>>,
    found: Seq<Placeholder>,
    values: Seq<Seq<char>>,
    k: int,
) -> bool {
    answered(states[k], found[k], values[k], states[k + 1])
}

/// One pass is resolved: the placeholders of `found` are resolved one after
/// the other, in their order, each from the commands as the one before has
/// left them. `states` holds the commands before the first placeholder,
/// between any two, and after the last.
pub open spec fn pass_answered<C: JakartaCommand>(
    before: Map<Seq<char>, C>,
    found: Seq<Placeholder>,
    values: Seq<Seq<char>>,
    after: Map<Seq<char>, C>,
    states: Seq<Map<Seq<char>, C>>,
) -> bool {
    &&& states.len() == found.len() + 1
    &&& values.len() == found.len()
    &&& states[0] == before
    &&& states[found.len() as int] == after
    &&& forall|k: int| 0 <= k < found.len() ==> #[trigger] answered_at(states, found, values, k)
}

/// The text after the passes of `trace`, each with the values that the trace
/// holds for it.
pub open spec fn working_text(
    pattern: Seq<char>,
    original: Seq<char>,
    trace: Seq<Seq<Seq<char>>>,
) -> Seq<char>
    decreases trace.len(),
{
    if trace.len() == 0 {
        original
    } else {
        let before = working_text(pattern, original, trace.drop_last());
        pass_text(before, placeholders(pattern, before), trace.last())
    }
}

/// The commands after the passes of `courses`, which holds the states of the
/// commands in each pass: those at the end of the last pass, and `start`
/// where no pass was made.
pub open spec fn commands_after<C: JakartaCommand>(
    start: Map<Seq<char>, C>,
    courses: Seq<Seq<Map<Seq<char>, C>>>,
) -> Map<Seq<char>, C> {
    if courses.len() == 0 {
        start
    } else {
        courses.last().last()
    }
}

/// `trace` is the course of an interpolation of `original` that starts with
/// the commands `start`: each pass found something to resolve, what it found
/// stood in the text, and the pass was resolved with the values that `trace`
/// holds for it, from the commands as the pass before has left them.
/// `courses` holds the states of the commands in each pass.
pub open spec fn follows<C: JakartaCommand>(
    pattern: Seq<char>,
    start: Map<Seq<char>, C>,
    original: Seq<char>,
    trace: Seq<Seq<Seq<char>>>,
    courses: Seq<Seq<Map<Seq<char>, C>>>,
) -> bool
    decreases trace.len(),
{
    &&& courses.len() == trace.len()
    &&& trace.len() == 0 || {
        let before = working_text(pattern, original, trace.drop_last());
        let found = placeholders(pattern, before);
        &&& follows(pattern, start, original, trace.drop_last(), courses.drop_last())
        &&& !exclusion_only(found)
        &&& found_in(before, found)
        &&& pass_answered(
            commands_after(start, courses.drop_last()),
            found,
            trace.last(),
            commands_after(start, courses),
            courses.last(),
        )
    }
}

/// In every pass of `trace`, every value is shorter than the placeholder it
/// stands for.
pub open spec fn shrinking(
    pattern: Seq<char>,
    original: Seq<char>,
    trace: Seq<Seq<Seq<char>>>,
) -> bool
    decreases trace.len(),
{
    trace.len() == 0 || {
        let before = working_text(pattern, original, trace.drop_last());
        &&& shrinking(pattern, original, trace.drop_last())
        &&& values_shorter(placeholders(pattern, before), trace.last())
    }
}

/// The command registered under `id` is asked in one of the passes of
/// `trace`.
pub open spec fn ever_asked(
    pattern: Seq<char>,
    ids: Set<Seq<char>>,
    original: Seq<char>,
    trace: Seq<Seq<Seq<char>>>,
    id: Seq<char>,
) -> bool
    decreases trace.len(),
{
    trace.len() > 0 && {
        let before = working_text(pattern, original, trace.drop_last());
        ||| ever_asked(pattern, ids, original, trace.drop_last(), id)
        ||| asked(ids, placeholders(pattern, before), id)
    }
}

/// `r` is how an interpolation ends that has brought the text to `text`:
/// resolved, with the escape markers taken off, where nothing is left to
/// resolve, and unfinished with `text` itself where something is.
pub open spec fn ends_as(pattern: Seq<char>, text: Seq<char>, r: Interpolation) -> bool {
    let found = placeholders(pattern, text);
    match r {
        Interpolation::Resolved(s) => exclusion_only(found) && s@ == unescaped_text(text, found),
        Interpolation::Unfinished(s) => !exclusion_only(found) && s@ == text,
    }
}

/// Passes are bounded: while every value is shorter than the placeholder it
/// stands for, each pass shortens the text, so an interpolation makes no more
/// passes than the text has characters when it starts.
pub proof fn law_bounded_passes<C: JakartaCommand>(
    pattern: Seq<char>,
    start: Map<Seq<char>, C>,
    original: Seq<char>,
    trace: Seq<Seq<Seq<char>>>,
    courses: Seq<Seq<Map<Seq<char>, C>>>,
)
    requires
        follows(pattern, start, original, trace, courses),
        shrinking(pattern, original, trace),
    ensures
        working_text(pattern, original, trace).len() + trace.len() <= original.len(),
    decreases trace.len(),
{
    if trace.len() > 0 {
        law_bounded_passes(pattern, start, original, trace.drop_last(), courses.drop_last());
        let before = working_text(pattern, original, trace.drop_last());
        lemma_pass_shorter(before, placeholders(pattern, before), trace.last());
    }
}

/// The resolver. It holds the compiled placeholder grammar and the commands
/// that placeholders are resolved against.
pub struct Jakarta<C: JakartaCommand> {
    matcher: Matcher,
    command_map: CommandMap<C>,
}

impl<C: JakartaCommand> Jakarta<C> {
    /// The resolver's command map is well formed.
    pub closed spec fn wf(&self) -> bool {
        self.command_map.wf()
    }

    /// The pattern that placeholders are found by.
    pub closed spec fn pattern(&self) -> Seq<char> {
        self.matcher.pattern()
    }

    /// The registered commands, by identifier.
    pub closed spec fn commands(&self) -> Map<Seq<char>, C> {
        self.command_map@
    }

    /// Builds a resolver for the commands of `command_map`. This fails only
    /// where the placeholder grammar does not compile.
    pub fn new(command_map: CommandMap<C>) -> (r: Result<Self, JakartaError>)
        requires
            command_map.wf(),
        ensures
            r is Ok <==> regex_compiles(PLACEHOLDER_PATTERN@),
            r is Ok ==> {
                &&& r->Ok_0.wf()
                &&& r->Ok_0.pattern() == PLACEHOLDER_PATTERN@
                &&& r->Ok_0.commands() == command_map@
            },
    {
        match Matcher::compile(PLACEHOLDER_PATTERN) {
            Ok(matcher) => Ok(Jakarta { matcher, command_map }),
            Err(e) => Err(JakartaError::RegexCompilation(e)),
        }
    }

    /// The placeholders of `text`, in the order in which the grammar finds
    /// them.
    pub fn find_all(&self, text: &str) -> (found: Vec<PlaceholderMatch>)
        ensures
            found.deep_view() == placeholders(self.pattern(), text@),
            found_in(text@, found.deep_view()),
    {
        self.matcher.find_all(text)
    }

    /// The value of one placeholder: the answer of the command that the
    /// placeholder names, asked with the placeholder's command, path, field
    /// and default. An escaped placeholder, one without command or path, and
    /// one whose command is not registered resolve to the empty string, and
    /// then no command is asked.
    pub fn resolve(&mut self, m: &PlaceholderMatch) -> (value: String)
        requires
            old(self).wf(),
        ensures
            final(self).wf(),
            final(self).pattern() == old(self).pattern(),
            final(self).commands().dom() == old(self).commands().dom(),
            !resolvable(old(self).commands().dom(), m@) ==> value@.len() == 0
                && final(self).commands() == old(self).commands(),
            resolvable(old(self).commands().dom(), m@) ==> old(self).commands()[m@.command->0].answers(
                &final(self).commands()[m@.command->0],
                m@.command->0,
                m@.path->0,
                m@.field,
                m@.default_value,
                value@,
            ),
            forall|id: Seq<char>|
                old(self).commands().contains_key(id) && m@.command != Some(id)
                    ==> #[trigger] final(self).commands()[id] == old(self).commands()[id],
    {
        match m.invocation() {
            Some(call) => {
                let answer = self.command_map.dispatch(
                    call.command,
                    call.path,
                    call.field,
                    call.default_value,
                );
                match answer {
                    Some(value) => value,
                    None => String::new(),
                }
            },
            None => String::new(),
        }
    }

    /// The values of one pass: that of each placeholder of `found`, resolved
    /// one after the other in their order. A command that no placeholder asks
    /// is not touched.
    pub fn resolve_all(&mut self, found: &Vec<PlaceholderMatch>) -> (values: Vec<String>)
        requires
            old(self).wf(),
        ensures
            final(self).wf(),
            final(self).pattern() == old(self).pattern(),
            final(self).commands().dom() == old(self).commands().dom(),
            exists|states: Seq<Map<Seq<char>, C>>| #[trigger]
                pass_answered(
                    old(self).commands(),
                    found.deep_view(),
                    values.deep_view(),
                    final(self).commands(),
                    states,
                ),
            forall|id: Seq<char>|
                old(self).commands().contains_key(id) && !asked(
                    old(self).commands().dom(),
                    found.deep_view(),
                    id,
                ) ==> #[trigger] final(self).commands()[id] == old(self).commands()[id],
    {
        let ghost ids = self.commands().dom();
        let ghost all = found.deep_view();
        let ghost states: Seq<Map<Seq<char>, C>> = seq![self.commands()];
        let mut values: Vec<String> = Vec::new();
        let mut i: usize = 0;
        while i < found.len()
            invariant
                i <= found.len(),
                all == found.deep_view(),
                self.wf(),
                self.pattern() == old(self).pattern(),
                self.commands().dom() == ids,
                ids == old(self).commands().dom(),
                values.len() == i,
                states.len() == i + 1,
                states[0] == old(self).commands(),
                states[i as int] == self.commands(),
                forall|k: int|
                    0 <= k < i ==> #[trigger] answered_at(states, all, values.deep_view(), k),
                forall|id: Seq<char>|
                    ids.contains(id) && !asked(ids, all.take(i as int), id)
                        ==> #[trigger] self.commands()[id] == old(self).commands()[id],
            decreases found.len() - i,
        {
            let ghost earlier = values.deep_view();
            let ghost so_far = states;
            let value = self.resolve(&found[i]);
            values.push(value);
            proof {
                let p = all[i as int];
                assert(p == found[i as int]@);
                states = so_far.push(self.commands());
                assert(values.deep_view()[i as int] == value@);
                assert(answered(so_far[i as int], p, value@, self.commands()));
                assert forall|k: int| 0 <= k < i + 1 implies #[trigger] answered_at(
                    states,
                    all,
                    values.deep_view(),
                    k,
                ) by {
                    if k < i {
                        assert(answered_at(so_far, all, earlier, k));
                        assert(values.deep_view()[k] == earlier[k]);
                    }
                }
                assert forall|id: Seq<char>|
                    ids.contains(id) && !asked(ids, all.take(i + 1), id) implies #[trigger] self.commands()[id]
                    == old(self).commands()[id] by {
                    let next = all.take(i + 1);
                    assert(next[i as int] == p);
                    if asked(ids, all.take(i as int), id) {
                        let k = choose|k: int|
                            0 <= k < i && resolvable(ids, #[trigger] all.take(i as int)[k])
                                && all.take(i as int)[k].command == Some(id);
                        assert(next[k] == all.take(i as int)[k]);
                    }
                    if resolvable(ids, p) {
                        assert(p.command != Some(id));
                    }
                }
            }
            i += 1;
        }
        proof {
            assert(all.take(i as int) =~= all);
            assert(pass_answered(
                old(self).commands(),
                all,
                values.deep_view(),
                self.commands(),
                states,
            ));
        }
        values
    }

    /// One pass over `text`: the placeholders of the text are resolved one
    /// after the other and their values substituted. The result is the new
    /// text, and whether the pass found escaped placeholders only, so that it
    /// resolved nothing.
    pub fn replace_values(&mut self, text: &str) -> (r: (String, bool))
        requires
            old(self).wf(),
        ensures
            final(self).wf(),
            final(self).pattern() == old(self).pattern(),
            final(self).commands().dom() == old(self).commands().dom(),
            r.1 == exclusion_only(placeholders(old(self).pattern(), text@)),
            r.1 ==> r.0@ == text@,
            exists|values: Seq<Seq<char>>, states: Seq<Map<Seq<char>, C>>|
                {
                    &&& #[trigger] pass_answered(
                        old(self).commands(),
                        placeholders(old(self).pattern(), text@),
                        values,
                        final(self).commands(),
                        states,
                    )
                    &&& r.0@ == pass_text(
                        text@,
                        placeholders(old(self).pattern(), text@),
                        values,
                    )
                },
            forall|id: Seq<char>|
                old(self).commands().contains_key(id) && !asked(
                    old(self).commands().dom(),
                    placeholders(old(self).pattern(), text@),
                    id,
                ) ==> #[trigger] final(self).commands()[id] == old(self).commands()[id],
    {
        let found = self.find_all(text);
        let values = self.resolve_all(&found);
        let replaced = apply_values(text, &found, &values);
        let only = is_exclusion_only(&found);
        proof {
            if only {
                lemma_pass_exclusion_only(text@, found.deep_view(), values.deep_view());
            }
            let states = choose|states: Seq<Map<Seq<char>, C>>| #[trigger]
                pass_answered(
                    old(self).commands(),
                    found.deep_view(),
                    values.deep_view(),
                    self.commands(),
                    states,
                );
            assert(pass_answered(
                old(self).commands(),
                placeholders(old(self).pattern(), text@),
                values.deep_view(),
                self.commands(),
                states,
            ));
        }
        (replaced, only)
    }

    /// The final pass over `text`: every escaped placeholder loses its
    /// escape marker. What is left is not looked at again.
    pub fn replace_exclusions(&self, text: &str) -> (r: String)
        ensures
            r@ == unescaped_text(text@, placeholders(self.pattern(), text@)),
    {
        let found = self.find_all(text);
        strip_exclusions(text, &found)
    }

    /// Interpolates `original` in at most `passes` passes.
    ///
    /// A pass resolves the placeholders that the text holds, one after the
    /// other, and substitutes their values; values may hold placeholders
    /// again, which the next pass resolves. When a pass finds nothing to
    /// resolve, the escape markers are taken off and the text is final. When
    /// the passes are used up before that, the text is handed back as the
    /// last pass left it. The commands are left as the last answer left
    /// them.
    pub fn interpolate_string(&mut self, original: String, passes: usize) -> (r: Interpolation)
        requires
            old(self).wf(),
        ensures
            final(self).wf(),
            final(self).pattern() == old(self).pattern(),
            final(self).commands().dom() == old(self).commands().dom(),
            exists|trace: Seq<Seq<Seq<char>>>, courses: Seq<Seq<Map<Seq<char>, C>>>|
                {
                    &&& #[trigger] follows(
                        old(self).pattern(),
                        old(self).commands(),
                        original@,
                        trace,
                        courses,
                    )
                    &&& final(self).commands() == commands_after(old(self).commands(), courses)
                    &&& trace.len() <= passes
                    &&& ends_as(
                        old(self).pattern(),
                        working_text(old(self).pattern(), original@, trace),
                        r,
                    )
                    &&& r is Unfinished ==> trace.len() == passes
                    &&& shrinking(old(self).pattern(), original@, trace) ==> trace.len()
                        <= original@.len()
                    &&& forall|id: Seq<char>|
                        old(self).commands().contains_key(id) && !ever_asked(
                            old(self).pattern(),
                            old(self).commands().dom(),
                            original@,
                            trace,
                            id,
                        ) ==> #[trigger] final(self).commands()[id] == old(self).commands()[id]
                },
            exclusion_only(placeholders(old(self).pattern(), original@)) ==> {
                &&& r is Resolved
                &&& r->Resolved_0@ == unescaped_text(
                    original@,
                    placeholders(old(self).pattern(), original@),
                )
                &&& final(self).commands() == old(self).commands()
            },
            placeholders(old(self).pattern(), original@).len() == 0 ==> r == Interpolation::Resolved(
                original,
            ),
    {
        let ghost pattern = self.pattern();
        let ghost ids = self.commands().dom();
        let ghost start = self.commands();
        let ghost trace: Seq<Seq<Seq<char>>> = Seq::empty();
        let ghost courses: Seq<Seq<Map<Seq<char>, C>>> = Seq::empty();
        let mut text = original;
        let mut done: usize = 0;
        loop
            invariant
                self.wf(),
                self.pattern() == pattern,
                pattern == old(self).pattern(),
                self.commands().dom() == ids,
                ids == old(self).commands().dom(),
                done <= passes,
                trace.len() == done,
                start == old(self).commands(),
                follows(pattern, start, original@, trace, courses),
                self.commands() == commands_after(start, courses),
                text@ == working_text(pattern, original@, trace),
                done == 0 ==> text == original && self.commands() == old(self).commands(),
                done > 0 ==> !exclusion_only(placeholders(pattern, original@)),
                forall|id: Seq<char>|
                    ids.contains(id) && !ever_asked(pattern, ids, original@, trace, id)
                        ==> #[trigger] self.commands()[id] == old(self).commands()[id],
            decreases passes - done,
        {
            let found = self.find_all(text.as_str());
            proof {
                if shrinking(pattern, original@, trace) {
                    law_bounded_passes(pattern, start, original@, trace, courses);
                }
            }
            if is_exclusion_only(&found) {
                let r = Interpolation::Resolved(strip_exclusions(text.as_str(), &found));
                proof {
                    assert(ends_as(pattern, working_text(pattern, original@, trace), r));
                    if found.len() == 0 {
                        assert(r->Resolved_0@ == text@);
                    }
                }
                if found.len() == 0 {
                    return Interpolation::Resolved(text);
                }
                return r;
            }
            if done == passes {
                let r = Interpolation::Unfinished(text);
                proof {
                    assert(ends_as(pattern, working_text(pattern, original@, trace), r));
                }
                return r;
            }
            let ghost commands_before = self.commands();
            let values = self.resolve_all(&found);
            text = apply_values(text.as_str(), &found, &values);
            proof {
                let states = choose|states: Seq<Map<Seq<char>, C>>| #[trigger]
                    pass_answered(
                        commands_before,
                        found.deep_view(),
                        values.deep_view(),
                        self.commands(),
                        states,
                    );
                let next = trace.push(values.deep_view());
                let next_courses = courses.push(states);
                assert(next.drop_last() =~= trace);
                assert(next.last() == values.deep_view());
                assert(next_courses.drop_last() =~= courses);
                assert(next_courses.last() == states);
                assert(states.last() == self.commands());
                assert(working_text(pattern, original@, next) == text@);
                assert(follows(pattern, start, original@, next, next_courses));
                courses = next_courses;
                assert forall|id: Seq<char>|
                    ids.contains(id) && !ever_asked(
                        pattern,
                        ids,
                        original@,
                        next,
                        id,
                    ) implies #[trigger] self.commands()[id] == old(self).commands()[id] by {
                    assert(self.commands()[id] == commands_before[id]);
                }
                trace = next;
            }
            done += 1;
        }
    }
}

} // verus!
