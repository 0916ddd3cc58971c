//! What holds of every scan, stated over the model and proved.

use vstd::prelude::*;
use crate::decl::{DeclarationView, PropertyView};
use crate::model::{
    add_property, dispatch, extend, flush, initial, lemma_step_advances, modifier_pattern, run,
    scan_parameters, step, State,
};
use crate::pattern::first_group;

verus! {

/// The number of class declarations in an output sequence.
pub open spec fn class_count(output: Seq<DeclarationView>) -> nat
    decreases output.len(),
{
    if output.len() == 0 {
        0
    } else {
        class_count(output.drop_last()) + if output.last() is Class { 1nat } else { 0nat }
    }
}

/// Whether the construct at the cursor of `s` opens a class.
pub open spec fn opens_class(s: State) -> bool {
    s.pos + 1 < s.words.len() && s.words[s.pos as int] == "class"@
}

/// Whether the step from `s` opens a class.
pub open spec fn step_opens_class(s: State) -> bool {
    step(s) is Ok && opens_class(State { pos: s.pos + 1, ..s })
}

/// The number of classes opened by a scan from `s` until it ends or fails.
pub open spec fn opened(s: State) -> nat
    decreases s.words.len() - s.pos,
    via opened_decreases
{
    if s.pos >= s.words.len() {
        0
    } else {
        match step(s) {
            Err(_) => 0,
            Ok(n) => opened(n) + if step_opens_class(s) { 1nat } else { 0nat },
        }
    }
}

#[via_fn]
proof fn opened_decreases(s: State) {
    if s.pos < s.words.len() {
        lemma_step_advances(s);
    }
}

/// Appending a declaration raises the class count by one if it is a class,
/// and not at all otherwise.
pub proof fn lemma_class_count_push(output: Seq<DeclarationView>, d: DeclarationView)
    ensures
        class_count(output.push(d)) == class_count(output) + if d is Class { 1nat } else { 0nat },
{
    assert(output.push(d).drop_last() =~= output);
}

/// A closing brace met while a class is open moves exactly the innermost
/// open class to the end of the output and leaves the others open.
pub proof fn lemma_close_emits_innermost(s: State, modifier: Option<Seq<char>>)
    requires
        s.pos < s.words.len(),
        s.words[s.pos as int] == "}"@,
        s.stack.len() > 0,
    ensures
        dispatch(s, modifier) matches Ok(n) && n.stack == s.stack.drop_last() && n.output == s.output.push(
            DeclarationView::Class(s.stack.last()),
        ) && n.pos == s.pos && n.diagnostics == s.diagnostics,
{
}

/// Reading one construct keeps the number of classes that are open or
/// emitted, unless it opens a class, which adds one.
pub proof fn lemma_dispatch_counts_classes(s: State, modifier: Option<Seq<char>>)
    requires
        s.pos <= s.words.len(),
    ensures
        dispatch(s, modifier) matches Ok(n) ==> class_count(n.output) + n.stack.len() == class_count(s.output)
            + s.stack.len() + if opens_class(s) { 1nat } else { 0nat },
{
    reveal_strlit("}");
    reveal_strlit("class");
    let w = s.words;
    let p = s.pos as int;
    if p < w.len() {
        assert("}"@.len() != "class"@.len());
        if w[p] == "}"@ {
            if s.stack.len() > 0 {
                lemma_class_count_push(s.output, DeclarationView::Class(s.stack.last()));
            }
        } else if w[p] == "class"@ {
        } else if p + 2 < w.len() {
            match dispatch(s, modifier) {
                Ok(n) => {
                    if n.output != s.output {
                        // A property or function went to the output.
                        assert(n.output.drop_last() =~= s.output);
                        lemma_class_count_push(s.output, n.output.last());
                    }
                },
                Err(_) => {},
            }
        }
    }
}

/// Every class that a scan opens is, at each moment, either still open or
/// emitted exactly once: from any state, the classes in the output and on
/// the stack at the end are those that were there at the start and those
/// opened since.
pub proof fn lemma_opened_classes_are_open_or_emitted(s: State)
    requires
        s.pos <= s.words.len(),
    ensures
        run(s) matches Ok(last) ==> class_count(last.output) + last.stack.len() == class_count(s.output)
            + s.stack.len() + opened(s),
    decreases s.words.len() - s.pos,
{
    if s.pos < s.words.len() {
        lemma_step_advances(s);
        match step(s) {
            Ok(n) => {
                let modifier = first_group(modifier_pattern(), s.words[s.pos as int])->Some_0;
                lemma_dispatch_counts_classes(State { pos: s.pos + 1, ..s }, modifier);
                lemma_opened_classes_are_open_or_emitted(n);
            },
            Err(_) => {},
        }
    }
}

/// Reading one construct only appends: what the output and the diagnostics
/// held before, they hold afterwards, in the same places.
pub proof fn lemma_dispatch_appends(s: State, modifier: Option<Seq<char>>)
    ensures
        dispatch(s, modifier) matches Ok(n) ==> s.output.is_prefix_of(n.output) && s.diagnostics.is_prefix_of(
            n.diagnostics,
        ),
{
    match dispatch(s, modifier) {
        Ok(n) => {
            assert(s.output =~= n.output.subrange(0, s.output.len() as int));
            assert(s.diagnostics =~= n.diagnostics.subrange(0, s.diagnostics.len() as int));
        },
        Err(_) => {},
    }
}

/// The output and the diagnostics are append-only over a whole scan.
pub proof fn lemma_run_appends(s: State)
    requires
        s.pos <= s.words.len(),
    ensures
        run(s) matches Ok(last) ==> s.output.is_prefix_of(last.output) && s.diagnostics.is_prefix_of(
            last.diagnostics,
        ),
    decreases s.words.len() - s.pos,
{
    if s.pos < s.words.len() {
        lemma_step_advances(s);
        match step(s) {
            Ok(n) => {
                let modifier = first_group(modifier_pattern(), s.words[s.pos as int])->Some_0;
                lemma_dispatch_appends(State { pos: s.pos + 1, ..s }, modifier);
                lemma_run_appends(n);
                match run(n) {
                    Ok(last) => {
                        assert(s.output =~= last.output.subrange(0, s.output.len() as int));
                        assert(s.diagnostics =~= last.diagnostics.subrange(0, s.diagnostics.len() as int));
                    },
                    Err(_) => {},
                }
            },
            Err(_) => {},
        }
    } else {
        assert(s.output =~= s.output.subrange(0, s.output.len() as int));
        assert(s.diagnostics =~= s.diagnostics.subrange(0, s.diagnostics.len() as int));
    }
}

/// A scan that succeeds has read every word, and has not changed them.
pub proof fn lemma_run_exhausts(s: State)
    requires
        s.pos <= s.words.len(),
    ensures
        run(s) matches Ok(last) ==> last.words == s.words && last.pos == s.words.len(),
    decreases s.words.len() - s.pos,
{
    if s.pos < s.words.len() {
        lemma_step_advances(s);
        match step(s) {
            Ok(n) => {
                lemma_run_exhausts(n);
            },
            Err(_) => {},
        }
    }
}

/// When the words are exhausted, the classes still open are missing from
/// the output: it holds as many classes as were opened, less those left on
/// the stack. With the stack empty at the end, every opened class was
/// emitted.
pub proof fn lemma_unclosed_classes_are_dropped(words: Seq<Seq<char>>)
    ensures
        run(initial(words)) matches Ok(last) ==> {
            &&& last.pos == words.len()
            &&& class_count(last.output) + last.stack.len() == opened(initial(words))
            &&& last.stack.len() == 0 ==> class_count(last.output) == opened(initial(words))
        },
{
    lemma_run_exhausts(initial(words));
    lemma_opened_classes_are_open_or_emitted(initial(words));
}

/// A property with an initializer and one without, of the same modifier,
/// type and name and met in the same surroundings, leave the same
/// declaration in the same place: nothing of the initializer is retained.
pub proof fn lemma_initializer_is_not_retained(a: State, b: State, modifier: Option<Seq<char>>)
    requires
        a.pos + 2 < a.words.len(),
        b.pos + 2 < b.words.len(),
        a.words[a.pos as int] == b.words[b.pos as int],
        a.words[(a.pos + 1) as int] == b.words[(b.pos + 1) as int],
        a.words[a.pos as int] != "}"@,
        a.words[a.pos as int] != "class"@,
        a.words[(a.pos + 2) as int] == ";"@,
        b.words[(b.pos + 2) as int] == "="@,
        a.stack == b.stack,
        a.output == b.output,
    ensures
        dispatch(a, modifier) matches Ok(x) && dispatch(b, modifier) matches Ok(y) && {
            let property = PropertyView {
                access_modifier: modifier,
                data_type: Some(a.words[a.pos as int]),
                name: Some(a.words[(a.pos + 1) as int]),
            };
            &&& x.stack == add_property(a, property).stack
            &&& x.output == add_property(a, property).output
            &&& y.stack == x.stack
            &&& y.output == x.output
            &&& x.diagnostics == a.diagnostics
            &&& y.diagnostics == b.diagnostics
        },
{
}

/// Whether `word` can stand inside a parameter: it is neither `)` nor `,`.
pub open spec fn is_plain(word: Seq<char>) -> bool {
    word != ")"@ && word != ","@
}

/// Whether `parameter` is written as one or more plain words.
pub open spec fn is_parameter(parameter: Seq<Seq<char>>) -> bool {
    parameter.len() > 0 && forall|k: int| 0 <= k < parameter.len() ==> is_plain(#[trigger] parameter[k])
}

/// The words of a parameter joined into one text, with no separator.
pub open spec fn joined(words: Seq<Seq<char>>) -> Seq<char>
    decreases words.len(),
{
    if words.len() == 0 {
        Seq::empty()
    } else {
        words[0] + joined(words.drop_first())
    }
}

/// The rest of a parameter list as it is written: the words `first` of the
/// parameter in progress, then each parameter of `more` behind a `,`, then
/// the closing `)`.
pub open spec fn list_words(first: Seq<Seq<char>>, more: Seq<Seq<Seq<char>>>) -> Seq<Seq<char>>
    decreases more.len(),
{
    if more.len() == 0 {
        first.push(")"@)
    } else {
        first.push(","@) + list_words(more[0], more.drop_first())
    }
}

/// A whole parameter list as it is written behind the `(`.
pub open spec fn written(parameters: Seq<Seq<Seq<char>>>) -> Seq<Seq<char>> {
    if parameters.len() == 0 {
        list_words(Seq::empty(), Seq::empty())
    } else {
        list_words(parameters[0], parameters.drop_first())
    }
}

/// Whether `words` holds `part` from position `i` on.
pub open spec fn holds_at(words: Seq<Seq<char>>, i: nat, part: Seq<Seq<char>>) -> bool {
    i + part.len() <= words.len() && forall|k: int| 0 <= k < part.len() ==> words[i + k] == #[trigger] part[k]
}

/// The parameter text in progress once the words `first` have been joined
/// onto `current`.
pub open spec fn text_after(current: Option<Seq<char>>, first: Seq<Seq<char>>) -> Option<Seq<char>> {
    match current {
        Some(c) => Some(c + joined(first)),
        None => if first.len() == 0 {
            None
        } else {
            Some(joined(first))
        },
    }
}

/// Reading the rest of a parameter list: where `words` holds, from `i` on,
/// the plain words `first`, then the parameters `more` each behind a `,`,
/// then `)`, the scan finishes the text in progress with `first` joined on,
/// adds one text for each parameter of `more`, and ends behind the `)`.
pub proof fn lemma_scan_rest_of_list(
    words: Seq<Seq<char>>,
    i: nat,
    current: Option<Seq<char>>,
    acc: Seq<Seq<char>>,
    first: Seq<Seq<char>>,
    more: Seq<Seq<Seq<char>>>,
)
    requires
        forall|k: int| 0 <= k < first.len() ==> is_plain(#[trigger] first[k]),
        forall|j: int| 0 <= j < more.len() ==> is_parameter(#[trigger] more[j]),
        holds_at(words, i, list_words(first, more)),
    ensures
        scan_parameters(words, i, current, acc) == Some(
            (
                flush(acc, text_after(current, first)) + more.map_values(|p: Seq<Seq<char>>| joined(p)),
                (i + list_words(first, more).len()) as nat,
            ),
        ),
    decreases more.len(), first.len(),
{
    reveal_strlit(")");
    reveal_strlit(",");
    let part = list_words(first, more);
    let texts = more.map_values(|p: Seq<Seq<char>>| joined(p));
    if first.len() > 0 {
        let rest = first.drop_first();
        let next = Some(extend(current, first[0]));
        assert(part[0] == first[0]);
        assert(words[i as int] == first[0]);
        assert(is_plain(first[0]));
        let shorter = list_words(rest, more);
        assert(part =~= seq![first[0]] + shorter) by {
            if more.len() == 0 {
                assert(first.push(")"@) =~= seq![first[0]] + rest.push(")"@));
            } else {
                assert(first.push(","@) =~= seq![first[0]] + rest.push(","@));
            }
        }
        assert(holds_at(words, i + 1, shorter)) by {
            assert forall|k: int| 0 <= k < shorter.len() implies words[i + 1 + k] == #[trigger] shorter[k] by {
                assert(part[k + 1] == shorter[k]);
            }
        }
        assert forall|k: int| 0 <= k < rest.len() implies is_plain(#[trigger] rest[k]) by {
            assert(rest[k] == first[k + 1]);
        }
        lemma_scan_rest_of_list(words, i + 1, next, acc, rest, more);
        assert(text_after(next, rest) == text_after(current, first)) by {
            match current {
                Some(c) => {
                    assert((c + first[0]) + joined(rest) =~= c + joined(first));
                },
                None => {},
            }
        }
    } else if more.len() == 0 {
        assert(part[0] == ")"@);
        assert(words[i as int] == ")"@);
        assert(texts =~= Seq::empty());
        assert(flush(acc, text_after(current, first)) + texts =~= flush(acc, current)) by {
            match current {
                Some(c) => {
                    assert(c + joined(first) =~= c);
                },
                None => {},
            }
        }
    } else {
        let head = more[0];
        let tail = more.drop_first();
        let rest = head.drop_first();
        let inner = list_words(head, tail);
        let shorter = list_words(rest, tail);
        assert(is_parameter(head));
        assert(part =~= seq![","@] + inner);
        assert(inner =~= seq![head[0]] + shorter) by {
            if tail.len() == 0 {
                assert(head.push(")"@) =~= seq![head[0]] + rest.push(")"@));
            } else {
                assert(head.push(","@) =~= seq![head[0]] + rest.push(","@));
            }
        }
        assert(part[0] == ","@);
        assert(words[i as int] == ","@);
        assert(","@.len() == 1 && ")"@.len() == 1);
        assert(","@[0] != ")"@[0]);
        assert(words[i as int] != ")"@);
        assert(part[1] == head[0]);
        assert(words[(i + 1) as int] == head[0]);
        assert(holds_at(words, i + 2, shorter)) by {
            assert forall|k: int| 0 <= k < shorter.len() implies words[i + 2 + k] == #[trigger] shorter[k] by {
                assert(part[k + 2] == shorter[k]);
            }
        }
        assert forall|k: int| 0 <= k < rest.len() implies is_plain(#[trigger] rest[k]) by {
            assert(rest[k] == head[k + 1]);
        }
        assert forall|j: int| 0 <= j < tail.len() implies is_parameter(#[trigger] tail[j]) by {
            assert(tail[j] == more[j + 1]);
        }
        let done = flush(acc, current);
        lemma_scan_rest_of_list(words, i + 2, Some(head[0]), done, rest, tail);
        assert(text_after(current, first) == current) by {
            match current {
                Some(c) => {
                    assert(c + joined(first) =~= c);
                },
                None => {},
            }
        }
        assert(head[0] + joined(rest) == joined(head));
        assert(flush(done, text_after(Some(head[0]), rest)) + tail.map_values(|p: Seq<Seq<char>>| joined(p))
            =~= done + texts);
    }
}

/// A parameter list written with `n` parameters, each of one or more plain
/// words, reads as `n` texts, each the words of its parameter joined with no
/// separator: none for `)` alone, and one for each parameter otherwise. The
/// scan ends just behind the closing `)`.
pub proof fn lemma_parameters_are_joined_one_by_one(
    words: Seq<Seq<char>>,
    i: nat,
    parameters: Seq<Seq<Seq<char>>>,
)
    requires
        forall|j: int| 0 <= j < parameters.len() ==> is_parameter(#[trigger] parameters[j]),
        holds_at(words, i, written(parameters)),
    ensures
        scan_parameters(words, i, None, Seq::empty()) matches Some(r) && r.0 == parameters.map_values(
            |p: Seq<Seq<char>>| joined(p),
        ) && r.0.len() == parameters.len() && r.1 == i + written(parameters).len(),
{
    let texts = parameters.map_values(|p: Seq<Seq<char>>| joined(p));
    if parameters.len() == 0 {
        lemma_scan_rest_of_list(words, i, None, Seq::empty(), Seq::empty(), Seq::empty());
        assert(Seq::<Seq<char>>::empty() + Seq::<Seq<Seq<char>>>::empty().map_values(|p: Seq<Seq<char>>| joined(p))
            =~= texts);
    } else {
        let head = parameters[0];
        let tail = parameters.drop_first();
        assert(is_parameter(head));
        assert forall|j: int| 0 <= j < tail.len() implies is_parameter(#[trigger] tail[j]) by {
            assert(tail[j] == parameters[j + 1]);
        }
        lemma_scan_rest_of_list(words, i, None, Seq::empty(), head, tail);
        assert(Seq::<Seq<char>>::empty().push(joined(head)) + tail.map_values(|p: Seq<Seq<char>>| joined(p))
            =~= texts);
    }
}

} // verus!
