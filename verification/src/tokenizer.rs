//! The scanner: a cursor over the words, the stack of open classes, and the
//! declarations and diagnostics produced so far.

use vstd::prelude::*;
use vstd::string::*;
use crate::lexer::{split_words, word_seq};
use crate::decl::{
    class_views, declaration_views, diagnostic_views, Class, Declaration, DeclarationView,
    Diagnostic, DiagnosticView, Function, ParseError, Property,
};
use crate::model;
use crate::model::{
    add_function, add_property, after_body, after_terminator, extend, flush, function_extent,
    initial, modifier_pattern, scan_parameters, State,
};
use crate::pattern::{capture_first_group, opt_text, texts};

verus! {

/// The structural tokenizer.
pub struct Tokenizer {
    words: Vec<String>,
    pos: usize,
    class_stack: Vec<Class>,
    tokens: Vec<Declaration>,
    diagnostics: Vec<Diagnostic>,
}

/// What a finished scan hands back.
#[derive(Clone, Debug, PartialEq, Eq)]
pub struct Outcome {
    /// The top-level declarations, in the order in which they were finished.
    pub declarations: Vec<Declaration>,
    /// The diagnostics, in the order in which they were reported.
    pub diagnostics: Vec<Diagnostic>,
}

impl View for Tokenizer {
    type V = State;

    closed spec fn view(&self) -> State {
        State {
            words: texts(self.words@),
            pos: self.pos as nat,
            stack: class_views(self.class_stack@),
            output: declaration_views(self.tokens@),
            diagnostics: diagnostic_views(self.diagnostics@),
        }
    }
}

/// Whether `word` reads `text`.
fn word_is(word: &String, text: &str) -> (r: bool)
    ensures
        r == (word@ == text@),
{
    let t = String::from_str(text);
    *word == t
}

/// The pattern that finds an access modifier at the start of a word.
fn modifier_pattern_text() -> (r: &'static str)
    ensures
        r@ == modifier_pattern(),
{
    "^\\s*(public|private|protected)"
}

/// Copies the words from `start` to the end.
fn unread(words: &Vec<String>, start: usize) -> (r: Vec<String>)
    requires
        start <= words.len(),
    ensures
        texts(r@) == texts(words@).subrange(start as int, words.len() as int),
{
    let n: usize = words.len();
    let mut i: usize = start;
    let mut copy: Vec<String> = Vec::new();
    while i < n
        invariant
            n == words.len(),
            start <= i <= n,
            texts(copy@) =~= texts(words@).subrange(start as int, i as int),
        decreases n - i,
    {
        let ghost before = texts(copy@);
        copy.push(words[i].clone());
        proof {
            assert(texts(copy@) =~= before.push(words[i as int]@));
            assert(texts(words@).subrange(start as int, i + 1) =~= texts(words@).subrange(start as int, i as int).push(
                words[i as int]@,
            ));
        }
        i += 1;
    }
    copy
}

/// Finds the position just behind the first `;` at or after `start`.
fn skip_initializer(words: &Vec<String>, start: usize) -> (r: usize)
    requires
        start <= words.len(),
    ensures
        r as nat == after_terminator(texts(words@), start as nat),
{
    let n: usize = words.len();
    let mut i: usize = start;
    while i < n
        invariant
            n == words.len(),
            start <= i <= n,
            after_terminator(texts(words@), start as nat) == after_terminator(texts(words@), i as nat),
        decreases n - i,
    {
        if word_is(&words[i], ";") {
            return i + 1;
        }
        i += 1;
    }
    i
}

/// Reads a parameter list that starts at `start`, behind the `(`.
fn parse_parameters(words: &Vec<String>, start: usize) -> (r: Option<(Vec<String>, usize)>)
    requires
        start <= words.len(),
    ensures
        match r {
            Some((parameters, next)) => scan_parameters(texts(words@), start as nat, None, Seq::empty())
                == Some((texts(parameters@), next as nat)),
            None => scan_parameters(texts(words@), start as nat, None, Seq::empty()) is None,
        },
{
    let n: usize = words.len();
    let mut i: usize = start;
    let mut current: Option<String> = None;
    let mut acc: Vec<String> = Vec::new();
    proof {
        assert(texts(acc@) =~= Seq::empty());
    }
    while i < n
        invariant
            n == words.len(),
            i <= n,
            scan_parameters(texts(words@), start as nat, None, Seq::empty()) == scan_parameters(
                texts(words@),
                i as nat,
                opt_text(current),
                texts(acc@),
            ),
        decreases n - i,
    {
        let ghost before = texts(acc@);
        if word_is(&words[i], ")") {
            if let Some(p) = current {
                acc.push(p);
            }
            proof {
                assert(texts(acc@) =~= flush(before, opt_text(current)));
            }
            return Some((acc, i + 1));
        } else if word_is(&words[i], ",") {
            if i + 1 >= n {
                return None;
            }
            if let Some(p) = current {
                acc.push(p);
            }
            proof {
                assert(texts(acc@) =~= flush(before, opt_text(current)));
            }
            current = Some(words[i + 1].clone());
            i += 2;
        } else {
            let joined = match current {
                Some(p) => p.concat(words[i].as_str()),
                None => words[i].clone(),
            };
            proof {
                assert(joined@ == extend(opt_text(current), words[i as int]@));
            }
            current = Some(joined);
            i += 1;
        }
    }
    None
}

/// Skips a function body whose `{` stands just before `start`.
fn skip_body(words: &Vec<String>, start: usize) -> (r: Option<usize>)
    requires
        1 <= start <= words.len(),
    ensures
        match r {
            Some(e) => after_body(texts(words@), start as nat, 1) == Some(e as nat),
            None => after_body(texts(words@), start as nat, 1) is None,
        },
{
    let n: usize = words.len();
    let mut i: usize = start;
    let mut depth: usize = 1;
    while depth > 0
        invariant
            n == words.len(),
            1 <= start <= i <= n,
            depth <= i - start + 1,
            after_body(texts(words@), start as nat, 1) == after_body(texts(words@), i as nat, depth as nat),
        decreases n - i,
    {
        if i >= n {
            return None;
        }
        if word_is(&words[i], "{") {
            depth += 1;
        } else if word_is(&words[i], "}") {
            depth -= 1;
        }
        i += 1;
    }
    Some(i)
}

/// Reads the parameters and skips the body of a function whose return type
/// stands at `p` and whose `(` stands at `p + 2`.
fn read_function(words: &Vec<String>, p: usize) -> (r: Option<(Vec<String>, usize)>)
    requires
        p + 2 < words.len(),
    ensures
        match r {
            Some((parameters, e)) => function_extent(texts(words@), p as nat) == Some(
                (texts(parameters@), e as nat),
            ),
            None => function_extent(texts(words@), p as nat) is None,
        },
{
    match parse_parameters(words, p + 3) {
        None => None,
        Some((parameters, q)) => {
            proof {
                model::lemma_scan_parameters_bounds(texts(words@), (p + 3) as nat, None, Seq::empty());
            }
            if q >= words.len() {
                None
            } else if word_is(&words[q], "{") {
                match skip_body(words, q + 1) {
                    None => None,
                    Some(e) => Some((parameters, e)),
                }
            } else {
                Some((parameters, q))
            }
        },
    }
}

impl Tokenizer {
    /// The cursor stands within the words or at their end.
    pub open spec fn wf(&self) -> bool {
        self@.pos <= self@.words.len()
    }

    /// A tokenizer at the start of `words`, with no class open and nothing
    /// produced.
    pub fn new(words: Vec<String>) -> (t: Tokenizer)
        ensures
            t@ == initial(texts(words@)),
            t.wf(),
    {
        let t = Tokenizer { words, pos: 0, class_stack: Vec::new(), tokens: Vec::new(), diagnostics: Vec::new() };
        proof {
            assert(t@.stack =~= Seq::empty());
            assert(t@.output =~= Seq::empty());
            assert(t@.diagnostics =~= Seq::empty());
        }
        t
    }

    /// Whether every word has been read.
    pub fn is_exhausted(&self) -> (r: bool)
        ensures
            r == (self@.pos >= self@.words.len()),
    {
        self.pos >= self.words.len()
    }

    /// The number of classes that are open.
    pub fn open_classes(&self) -> (r: usize)
        ensures
            r == self@.stack.len(),
    {
        self.class_stack.len()
    }

    /// The diagnostics reported so far, oldest first.
    pub fn diagnostics(&self) -> (r: &Vec<Diagnostic>)
        ensures
            diagnostic_views(r@) == self@.diagnostics,
    {
        &self.diagnostics
    }

    /// Ends the scan where it stands and hands back what was produced.
    /// Classes that are still open are dropped.
    pub fn finish(self) -> (r: Outcome)
        ensures
            declaration_views(r.declarations@) == self@.output,
            diagnostic_views(r.diagnostics@) == self@.diagnostics,
    {
        Outcome { declarations: self.tokens, diagnostics: self.diagnostics }
    }

    /// Appends `property` to the innermost open class, or to the output
    /// where no class is open.
    pub fn push_prop_to_stack(&mut self, property: Property)
        ensures
            final(self)@ == add_property(old(self)@, property@),
            old(self).wf() ==> final(self).wf(),
    {
        if self.class_stack.len() > 0 {
            let mut class = self.class_stack.pop().unwrap();
            let ghost top = class@;
            class.properties.push(property);
            proof {
                assert(class@.properties =~= top.properties.push(property@));
            }
            self.class_stack.push(class);
            proof {
                assert(self@.stack =~= add_property(old(self)@, property@).stack);
            }
        } else {
            self.tokens.push(Declaration::Property(property));
            proof {
                assert(self@.output =~= add_property(old(self)@, property@).output);
            }
        }
    }

    /// Appends `function` to the innermost open class, or to the output
    /// where no class is open.
    pub fn push_func_to_stack(&mut self, function: Function)
        ensures
            final(self)@ == add_function(old(self)@, function@),
            old(self).wf() ==> final(self).wf(),
    {
        if self.class_stack.len() > 0 {
            let mut class = self.class_stack.pop().unwrap();
            let ghost top = class@;
            class.functions.push(function);
            proof {
                assert(class@.functions =~= top.functions.push(function@));
            }
            self.class_stack.push(class);
            proof {
                assert(self@.stack =~= add_function(old(self)@, function@).stack);
            }
        } else {
            self.tokens.push(Declaration::Function(function));
            proof {
                assert(self@.output =~= add_function(old(self)@, function@).output);
            }
        }
    }

    /// Reads the construct at the cursor, given the access modifier that the
    /// word before it held. On an error the tokenizer is left as it was.
    pub fn dispatch(&mut self, access_modifier: Option<String>) -> (r: Result<(), ParseError>)
        requires
            old(self).wf(),
        ensures
            final(self).wf(),
            match r {
                Ok(()) => model::dispatch(old(self)@, opt_text(access_modifier)) == Ok::<State, ParseError>(
                    final(self)@,
                ),
                Err(e) => model::dispatch(old(self)@, opt_text(access_modifier)) == Err::<State, ParseError>(e)
                    && final(self)@ == old(self)@,
            },
    {
        let n: usize = self.words.len();
        let p: usize = self.pos;
        let ghost before = self@;
        let ghost modifier = opt_text(access_modifier);
        proof {
            model::lemma_dispatch_bounds(before, modifier);
        }
        if p >= n {
            return Ok(());
        }
        if word_is(&self.words[p], "}") {
            if self.class_stack.len() > 0 {
                let class = self.class_stack.pop().unwrap();
                self.tokens.push(Declaration::Class(class));
                proof {
                    assert(self@.stack =~= before.stack.drop_last());
                    assert(self@.output =~= before.output.push(DeclarationView::Class(before.stack.last())));
                }
            } else {
                self.diagnostics.push(Diagnostic::StructuralUnderflow);
                self.pos = p + 1;
                proof {
                    assert(self@.diagnostics =~= before.diagnostics.push(
                        DiagnosticView::StructuralUnderflow,
                    ));
                }
            }
            return Ok(());
        }
        if word_is(&self.words[p], "class") {
            if p + 1 >= n {
                return Err(ParseError::TruncatedInput);
            }
            let class = Class {
                access_modifier,
                name: Some(self.words[p + 1].clone()),
                properties: Vec::new(),
                functions: Vec::new(),
            };
            proof {
                assert(class@.properties =~= Seq::empty());
                assert(class@.functions =~= Seq::empty());
            }
            self.class_stack.push(class);
            self.pos = p + 2;
            proof {
                assert(self@.stack =~= before.stack.push(class@));
            }
            return Ok(());
        }
        if n - p <= 2 {
            return Err(ParseError::TruncatedInput);
        }
        let is_terminator = word_is(&self.words[p + 2], ";");
        let is_initializer = word_is(&self.words[p + 2], "=");
        if is_terminator || is_initializer {
            let property = Property {
                access_modifier,
                data_type: Some(self.words[p].clone()),
                name: Some(self.words[p + 1].clone()),
            };
            let next: usize = if is_initializer {
                skip_initializer(&self.words, p + 2)
            } else {
                p + 2
            };
            self.push_prop_to_stack(property);
            self.pos = next;
            Ok(())
        } else if word_is(&self.words[p + 2], "(") {
            match read_function(&self.words, p) {
                None => Err(ParseError::TruncatedInput),
                Some((parameters, e)) => {
                    let function = Function {
                        access_modifier,
                        return_type: Some(self.words[p].clone()),
                        name: Some(self.words[p + 1].clone()),
                        parameters,
                    };
                    self.push_func_to_stack(function);
                    self.pos = e;
                    Ok(())
                },
            }
        } else {
            let remaining = unread(&self.words, p);
            self.diagnostics.push(Diagnostic::UnrecognizedConstruct { token: self.words[p + 2].clone(), remaining });
            proof {
                assert(self@.diagnostics =~= before.diagnostics.push(
                    DiagnosticView::UnrecognizedConstruct {
                        token: before.words[p + 2],
                        remaining: before.words.subrange(p as int, n as int),
                    },
                ));
            }
            Ok(())
        }
    }

    /// Performs one step: removes the first unread word, searches it for an
    /// access modifier and reads the construct behind it. On an error the
    /// tokenizer is left as it was.
    pub fn tokenize(&mut self) -> (r: Result<(), ParseError>)
        requires
            old(self).wf(),
        ensures
            final(self).wf(),
            match r {
                Ok(()) => model::step(old(self)@) == Ok::<State, ParseError>(final(self)@),
                Err(e) => model::step(old(self)@) == Err::<State, ParseError>(e) && final(self)@ == old(self)@,
            },
    {
        if self.pos >= self.words.len() {
            return Err(ParseError::TruncatedInput);
        }
        let p: usize = self.pos;
        match capture_first_group(modifier_pattern_text(), self.words[p].as_str()) {
            Err(_) => Err(ParseError::Pattern),
            Ok(access_modifier) => {
                self.pos = p + 1;
                let r = self.dispatch(access_modifier);
                if r.is_err() {
                    self.pos = p;
                }
                r
            },
        }
    }

    /// Steps until no word is left and hands back what was produced. Classes
    /// that are still open at the end are dropped.
    pub fn run(self) -> (r: Result<Outcome, ParseError>)
        requires
            self.wf(),
        ensures
            match r {
                Ok(o) => model::run(self@) matches Ok(last) && declaration_views(o.declarations@)
                    == last.output && diagnostic_views(o.diagnostics@) == last.diagnostics,
                Err(e) => model::run(self@) == Err::<State, ParseError>(e),
            },
    {
        let mut t = self;
        while !t.is_exhausted()
            invariant
                t.wf(),
                model::run(self@) == model::run(t@),
            decreases t.words.len() - t.pos,
        {
            proof {
                model::lemma_step_advances(t@);
            }
            match t.tokenize() {
                Err(e) => {
                    return Err(e);
                },
                Ok(()) => {},
            }
        }
        Ok(t.finish())
    }
}

/// What a scan of `text` ends in: the last state, or the error that stopped
/// it.
pub open spec fn parsed(text: Seq<char>) -> Result<State, ParseError> {
    match word_seq(text) {
        None => Err(ParseError::Pattern),
        Some(words) => model::run(initial(words)),
    }
}

/// Splits `text` into words and scans them from the first to the last.
pub fn parse(text: &str) -> (r: Result<Outcome, ParseError>)
    ensures
        match r {
            Ok(o) => parsed(text@) matches Ok(last) && declaration_views(o.declarations@) == last.output
                && diagnostic_views(o.diagnostics@) == last.diagnostics,
            Err(e) => parsed(text@) == Err::<State, ParseError>(e),
        },
{
    match split_words(text) {
        Err(e) => Err(e),
        Ok(words) => Tokenizer::new(words).run(),
    }
}

} // verus!
