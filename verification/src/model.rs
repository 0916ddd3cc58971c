//! The scanner as a mathematical state machine over a sequence of words.

use vstd::prelude::*;
use crate::decl::{ClassView, DeclarationView, DiagnosticView, FunctionView, ParseError, PropertyView};
use crate::pattern::first_group;

verus! {

/// The state of a scan: the words, the cursor before the first unread word,
/// the classes that are open (outermost first), the finished top-level
/// declarations and the diagnostics reported so far.
pub struct State {
    pub words: Seq<Seq<char>>,
    pub pos: nat,
    pub stack: Seq<ClassView>,
    pub output: Seq<DeclarationView>,
    pub diagnostics: Seq<DiagnosticView>,
}

/// The state in which a scan of `words` starts.
pub open spec fn initial(words: Seq<Seq<char>>) -> State {
    State {
        words,
        pos: 0,
        stack: Seq::empty(),
        output: Seq::empty(),
        diagnostics: Seq::empty(),
    }
}

/// The pattern that finds an access modifier at the start of a word.
pub open spec fn modifier_pattern() -> Seq<char> {
    "^\\s*(public|private|protected)"@
}

/// `s` with `p` appended to the innermost open class, or to the output where
/// no class is open.
pub open spec fn add_property(s: State, p: PropertyView) -> State {
    if s.stack.len() > 0 {
        let top = s.stack.last();
        State {
            stack: s.stack.drop_last().push(ClassView { properties: top.properties.push(p), ..top }),
            ..s
        }
    } else {
        State { output: s.output.push(DeclarationView::Property(p)), ..s }
    }
}

/// `s` with `f` appended to the innermost open class, or to the output where
/// no class is open.
pub open spec fn add_function(s: State, f: FunctionView) -> State {
    if s.stack.len() > 0 {
        let top = s.stack.last();
        State {
            stack: s.stack.drop_last().push(ClassView { functions: top.functions.push(f), ..top }),
            ..s
        }
    } else {
        State { output: s.output.push(DeclarationView::Function(f)), ..s }
    }
}

/// The position just behind the first `;` at or after `i`, or the end of the
/// words where there is none.
pub open spec fn after_terminator(words: Seq<Seq<char>>, i: nat) -> nat
    decreases words.len() - i,
{
    if i >= words.len() {
        i
    } else if words[i as int] == ";"@ {
        i + 1
    } else {
        after_terminator(words, i + 1)
    }
}

/// `acc` with the parameter text in progress, if any, appended.
pub open spec fn flush(acc: Seq<Seq<char>>, current: Option<Seq<char>>) -> Seq<Seq<char>> {
    match current {
        Some(p) => acc.push(p),
        None => acc,
    }
}

/// `current` with `word` joined on, without a separator.
pub open spec fn extend(current: Option<Seq<char>>, word: Seq<char>) -> Seq<char> {
    match current {
        Some(p) => p + word,
        None => word,
    }
}

/// Reads a parameter list from position `i`, with `current` the parameter
/// text in progress and `acc` the parameters already finished. A `)` ends the
/// list; a `,` finishes the text in progress and takes the word behind it as
/// the start of the next; any other word is joined onto the text in
/// progress. Gives the parameters and the position behind the `)`, or `None`
/// where the words end first.
pub open spec fn scan_parameters(
    words: Seq<Seq<char>>,
    i: nat,
    current: Option<Seq<char>>,
    acc: Seq<Seq<char>>,
) -> Option<(Seq<Seq<char>>, nat)>
    decreases words.len() - i,
{
    if i >= words.len() {
        None
    } else if words[i as int] == ")"@ {
        Some((flush(acc, current), i + 1))
    } else if words[i as int] == ","@ {
        if i + 1 >= words.len() {
            None
        } else {
            scan_parameters(words, i + 2, Some(words[i + 1 as int]), flush(acc, current))
        }
    } else {
        scan_parameters(words, i + 1, Some(extend(current, words[i as int])), acc)
    }
}

/// The position behind the `}` that brings `depth` open braces back to
/// none, reading from `i`; `None` where the words end first.
pub open spec fn after_body(words: Seq<Seq<char>>, i: nat, depth: nat) -> Option<nat>
    decreases words.len() - i,
{
    if depth == 0 {
        Some(i)
    } else if i >= words.len() {
        None
    } else if words[i as int] == "{"@ {
        after_body(words, i + 1, depth + 1)
    } else if words[i as int] == "}"@ {
        after_body(words, i + 1, (depth - 1) as nat)
    } else {
        after_body(words, i + 1, depth)
    }
}

/// The position at which a function that starts at `p` (its return type)
/// ends, with its parameters; `None` where the words end first.
pub open spec fn function_extent(words: Seq<Seq<char>>, p: nat) -> Option<(Seq<Seq<char>>, nat)> {
    match scan_parameters(words, p + 3, None, Seq::empty()) {
        None => None,
        Some((parameters, q)) => {
            if q >= words.len() {
                None
            } else if words[q as int] == "{"@ {
                match after_body(words, q + 1, 1) {
                    None => None,
                    Some(e) => Some((parameters, e)),
                }
            } else {
                Some((parameters, q))
            }
        },
    }
}

/// The second half of a step: the word examined has been removed and gave
/// `modifier`; the construct that the next words form is read.
///
/// - No word left: nothing happens.
/// - `}`: the innermost open class moves to the output and the brace stays
///   for the next step to examine; with no class open, an underflow is
///   reported and the brace is consumed.
/// - `class`: the keyword and the name are consumed, and a new class opens.
/// - Otherwise the third word decides: `;` or `=` make a property (an
///   initializer is discarded through its `;`), `(` makes a function, and
///   anything else is reported as unrecognized, together with the unread
///   words, and nothing is consumed.
pub open spec fn dispatch(s: State, modifier: Option<Seq<char>>) -> Result<State, ParseError> {
    let w = s.words;
    let p = s.pos as int;
    if p >= w.len() {
        Ok(s)
    } else if w[p] == "}"@ {
        if s.stack.len() > 0 {
            Ok(State { stack: s.stack.drop_last(), output: s.output.push(DeclarationView::Class(s.stack.last())), ..s })
        } else {
            Ok(State { pos: s.pos + 1, diagnostics: s.diagnostics.push(DiagnosticView::StructuralUnderflow), ..s })
        }
    } else if w[p] == "class"@ {
        if p + 1 >= w.len() {
            Err(ParseError::TruncatedInput)
        } else {
            Ok(State {
                pos: s.pos + 2,
                stack: s.stack.push(ClassView {
                    access_modifier: modifier,
                    name: Some(w[p + 1]),
                    properties: Seq::empty(),
                    functions: Seq::empty(),
                }),
                ..s
            })
        }
    } else if p + 2 >= w.len() {
        Err(ParseError::TruncatedInput)
    } else if w[p + 2] == ";"@ || w[p + 2] == "="@ {
        let property = PropertyView { access_modifier: modifier, data_type: Some(w[p]), name: Some(w[p + 1]) };
        let next = if w[p + 2] == "="@ { after_terminator(w, s.pos + 2) } else { s.pos + 2 };
        Ok(State { pos: next, ..add_property(s, property) })
    } else if w[p + 2] == "("@ {
        match function_extent(w, s.pos) {
            None => Err(ParseError::TruncatedInput),
            Some((parameters, e)) => {
                let function = FunctionView {
                    access_modifier: modifier,
                    return_type: Some(w[p]),
                    name: Some(w[p + 1]),
                    parameters,
                };
                Ok(State { pos: e, ..add_function(s, function) })
            },
        }
    } else {
        Ok(State {
            diagnostics: s.diagnostics.push(
                DiagnosticView::UnrecognizedConstruct { token: w[p + 2], remaining: w.subrange(p, w.len() as int) },
            ),
            ..s
        })
    }
}

/// One step: the first unread word is removed and searched for an access
/// modifier, then [`dispatch`] reads the construct behind it. With no word
/// left to remove the input is truncated. Every step consumes the word it
/// examines, so a scan always comes to an end.
pub open spec fn step(s: State) -> Result<State, ParseError> {
    if s.pos >= s.words.len() {
        Err(ParseError::TruncatedInput)
    } else {
        step_on_word(s)
    }
}

/// A step on a state that has a word left.
pub open spec fn step_on_word(s: State) -> Result<State, ParseError> {
    match first_group(modifier_pattern(), s.words[s.pos as int]) {
        None => Err(ParseError::Pattern),
        Some(modifier) => dispatch(State { pos: s.pos + 1, ..s }, modifier),
    }
}

/// Steps from `s` until no word is left.
pub open spec fn run(s: State) -> Result<State, ParseError>
    decreases s.words.len() - s.pos,
    via run_decreases
{
    if s.pos >= s.words.len() {
        Ok(s)
    } else {
        match step(s) {
            Err(e) => Err(e),
            Ok(n) => run(n),
        }
    }
}

#[via_fn]
proof fn run_decreases(s: State) {
    if s.pos < s.words.len() {
        lemma_step_advances(s);
    }
}

/// Skipping an initializer never moves backwards nor past the end.
pub proof fn lemma_after_terminator_bounds(words: Seq<Seq<char>>, i: nat)
    requires
        i <= words.len(),
    ensures
        i <= after_terminator(words, i) <= words.len(),
    decreases words.len() - i,
{
    if i < words.len() && words[i as int] != ";"@ {
        lemma_after_terminator_bounds(words, i + 1);
    }
}

/// A parameter list that closes ends behind where it started, within the
/// words.
pub proof fn lemma_scan_parameters_bounds(
    words: Seq<Seq<char>>,
    i: nat,
    current: Option<Seq<char>>,
    acc: Seq<Seq<char>>,
)
    ensures
        scan_parameters(words, i, current, acc) matches Some(r) ==> i < r.1 <= words.len(),
    decreases words.len() - i,
{
    if i < words.len() && words[i as int] != ")"@ {
        if words[i as int] == ","@ {
            if i + 1 < words.len() {
                lemma_scan_parameters_bounds(words, i + 2, Some(words[i + 1 as int]), flush(acc, current));
            }
        } else {
            lemma_scan_parameters_bounds(words, i + 1, Some(extend(current, words[i as int])), acc);
        }
    }
}

/// A body that closes ends at or behind where it started, within the words.
pub proof fn lemma_after_body_bounds(words: Seq<Seq<char>>, i: nat, depth: nat)
    requires
        i <= words.len(),
    ensures
        after_body(words, i, depth) matches Some(e) ==> i <= e <= words.len(),
    decreases words.len() - i,
{
    if depth > 0 && i < words.len() {
        if words[i as int] == "{"@ {
            lemma_after_body_bounds(words, i + 1, depth + 1);
        } else if words[i as int] == "}"@ {
            lemma_after_body_bounds(words, i + 1, (depth - 1) as nat);
        } else {
            lemma_after_body_bounds(words, i + 1, depth);
        }
    }
}

/// Reading a construct keeps the words and never moves the cursor backwards
/// nor past the end.
pub proof fn lemma_dispatch_bounds(s: State, modifier: Option<Seq<char>>)
    requires
        s.pos <= s.words.len(),
    ensures
        dispatch(s, modifier) matches Ok(n) ==> n.words == s.words && s.pos <= n.pos <= s.words.len(),
{
    let w = s.words;
    if s.pos + 2 < w.len() {
        lemma_after_terminator_bounds(w, s.pos + 2);
        lemma_scan_parameters_bounds(w, s.pos + 3, None, Seq::empty());
        match scan_parameters(w, s.pos + 3, None, Seq::empty()) {
            Some((_, q)) => {
                if q < w.len() {
                    lemma_after_body_bounds(w, q + 1, 1);
                }
            },
            None => {},
        }
    }
}

/// A step consumes at least the word it examines.
pub proof fn lemma_step_advances(s: State)
    requires
        s.pos < s.words.len(),
    ensures
        step(s) matches Ok(n) ==> n.words == s.words && s.pos < n.pos <= s.words.len(),
{
    match first_group(modifier_pattern(), s.words[s.pos as int]) {
        None => {},
        Some(modifier) => {
            lemma_dispatch_bounds(State { pos: s.pos + 1, ..s }, modifier);
        },
    }
}

} // verus!
