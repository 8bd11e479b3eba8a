//! Parsing directive lines into [`CompletionLine`] values and collecting
//! them per command.
//!
//! A line is escaped, its quoting adapted, split into shell words, and the
//! words interpreted under a fixed flag grammar.  Parsed directives are
//! appended to a [`Completions`] store, one ordered bucket per command, in
//! the order commands are first seen.

use vstd::prelude::*;

use crate::completion_line::{
    adapt_quoting, adapt_spec, escape_spec, unescape_spec, CompletionLine, CompletionView,
};
use crate::text::{str_eq, trim_start, trim_start_spec};

verus! {

/// Why a directive line was rejected.
#[derive(Clone, Copy, Debug, PartialEq, Eq, Structural)]
pub enum ParseError {
    /// The line could not be split into shell words (unmatched quote).
    Tokenize,
    /// A token the flag grammar does not accept: an unknown flag, a flag
    /// missing its value, a repeated single-value flag, or a stray word.
    UnknownToken,
    /// No `-c`/`--command` token was present.
    MissingCommand,
}

impl ParseError {
    /// A short human-readable account of the error.
    pub fn describe(&self) -> (r: &'static str)
        ensures
            r@ == describe_spec(*self),
    {
        match self {
            ParseError::Tokenize => "error parsing shell words",
            ParseError::UnknownToken => "error parsing completion line",
            ParseError::MissingCommand => "completion contained no command name",
        }
    }
}

/// The text [`ParseError::describe`] returns.
pub open spec fn describe_spec(e: ParseError) -> Seq<char> {
    match e {
        ParseError::Tokenize => "error parsing shell words"@,
        ParseError::UnknownToken => "error parsing completion line"@,
        ParseError::MissingCommand => "completion contained no command name"@,
    }
}

/// The words that POSIX-style splitting recovers from a line, or `None` when
/// the line cannot be split.  The splitting rules are a fixed function of
/// the input characters, named here rather than restated.
pub uninterp spec fn shell_split(s: Seq<char>) -> Option<Seq<Seq<char>>>;

/// Relies on `shell_words::split`: word splitting as a Unix shell performs
/// it, with expansion limited to quote removal.  Its only error, an
/// unmatched quote, carries no data and is returned here as a unit.  The
/// result depends on the input characters alone.
#[verifier::external_body]
fn split_words(s: &str) -> (r: Result<Vec<String>, ()>)
    ensures
        match r {
            Ok(words) => shell_split(s@) == Some(words.deep_view()),
            Err(_) => shell_split(s@) is None,
        },
{
    shell_words::split(s).map_err(|_| ())
}

/// A token acceptable as a flag's value: anything not beginning with a dash.
pub open spec fn is_value_token(t: Seq<char>) -> bool {
    t.len() == 0 || t[0] != '-'
}

/// The directive with nothing recorded yet.
pub open spec fn empty_acc() -> CompletionView {
    CompletionView {
        command: None,
        short: Seq::empty(),
        long: Seq::empty(),
        old_option: Seq::empty(),
        argument: None,
        description: None,
    }
}

/// The flag grammar, one token pair at a time.  `-c`/`--command`,
/// `-a`/`--argument` and `-d`/`--description` take a single value and may
/// appear once; `-s`/`--short`, `-l`/`--long` and `-o`/`--old-option` are
/// repeatable.  Every flag must be followed by a value token, and every
/// token must be one of these flags or a consumed value.
pub open spec fn parse_tokens_rec(ts: Seq<Seq<char>>, acc: CompletionView) -> Result<
    CompletionView,
    ParseError,
>
    decreases ts.len(),
{
    if ts.len() == 0 {
        Ok(acc)
    } else {
        let t = ts[0];
        let has_value = ts.len() >= 2 && is_value_token(ts[1]);
        if t == "-c"@ || t == "--command"@ {
            if has_value && acc.command is None {
                parse_tokens_rec(ts.skip(2), CompletionView { command: Some(ts[1]), ..acc })
            } else {
                Err(ParseError::UnknownToken)
            }
        } else if t == "-s"@ || t == "--short"@ {
            if has_value {
                parse_tokens_rec(ts.skip(2), CompletionView { short: acc.short.push(ts[1]), ..acc })
            } else {
                Err(ParseError::UnknownToken)
            }
        } else if t == "-l"@ || t == "--long"@ {
            if has_value {
                parse_tokens_rec(ts.skip(2), CompletionView { long: acc.long.push(ts[1]), ..acc })
            } else {
                Err(ParseError::UnknownToken)
            }
        } else if t == "-o"@ || t == "--old-option"@ {
            if has_value {
                parse_tokens_rec(
                    ts.skip(2),
                    CompletionView { old_option: acc.old_option.push(ts[1]), ..acc },
                )
            } else {
                Err(ParseError::UnknownToken)
            }
        } else if t == "-a"@ || t == "--argument"@ {
            if has_value && acc.argument is None {
                parse_tokens_rec(ts.skip(2), CompletionView { argument: Some(ts[1]), ..acc })
            } else {
                Err(ParseError::UnknownToken)
            }
        } else if t == "-d"@ || t == "--description"@ {
            if has_value && acc.description is None {
                parse_tokens_rec(ts.skip(2), CompletionView { description: Some(ts[1]), ..acc })
            } else {
                Err(ParseError::UnknownToken)
            }
        } else {
            Err(ParseError::UnknownToken)
        }
    }
}

/// Interpret a whole token list.  The first token is the invoking word
/// (conventionally `complete`) and is skipped; a directive whose grammar is
/// satisfied but which names no command is rejected with
/// [`ParseError::MissingCommand`].
pub open spec fn parse_tokens_spec(ts: Seq<Seq<char>>) -> Result<CompletionView, ParseError> {
    if ts.len() == 0 {
        Err(ParseError::MissingCommand)
    } else {
        match parse_tokens_rec(ts.skip(1), empty_acc()) {
            Ok(v) => if v.command is Some {
                Ok(v)
            } else {
                Err(ParseError::MissingCommand)
            },
            Err(e) => Err(e),
        }
    }
}

/// Strip the escape sentinel from every recovered value.  The command name
/// never carries a sentinel and is left as recovered.
pub open spec fn unescape_view(v: CompletionView) -> CompletionView {
    CompletionView {
        command: v.command,
        short: v.short.map_values(|t: Seq<char>| unescape_spec(t)),
        long: v.long.map_values(|t: Seq<char>| unescape_spec(t)),
        old_option: v.old_option.map_values(|t: Seq<char>| unescape_spec(t)),
        argument: match v.argument {
            Some(a) => Some(unescape_spec(a)),
            None => None,
        },
        description: match v.description {
            Some(d) => Some(unescape_spec(d)),
            None => None,
        },
    }
}

/// What parsing one whole line yields: the line is escaped, its quoting
/// adapted, split into shell words, the words interpreted under the flag
/// grammar, and every recovered value unescaped.
pub open spec fn parse_line_spec(line: Seq<char>) -> Result<CompletionView, ParseError> {
    match shell_split(adapt_spec(escape_spec(line))) {
        None => Err(ParseError::Tokenize),
        Some(ts) => match parse_tokens_spec(ts) {
            Ok(v) => Ok(unescape_view(v)),
            Err(e) => Err(e),
        },
    }
}

/// The grammar never records a command unless a command flag appears.
proof fn lemma_rec_keeps_command_absent(ts: Seq<Seq<char>>, acc: CompletionView)
    requires
        forall|i: int| 0 <= i < ts.len() ==> ts[i] != "-c"@ && ts[i] != "--command"@,
        acc.command is None,
    ensures
        match parse_tokens_rec(ts, acc) {
            Ok(v) => v.command is None,
            Err(_) => true,
        },
    decreases ts.len(),
{
    if ts.len() > 0 {
        let t = ts[0];
        let has_value = ts.len() >= 2 && is_value_token(ts[1]);
        if has_value {
            assert(forall|i: int|
                0 <= i < ts.skip(2).len() ==> ts.skip(2)[i] != "-c"@ && ts.skip(2)[i]
                    != "--command"@);
            if t == "-s"@ || t == "--short"@ {
                lemma_rec_keeps_command_absent(
                    ts.skip(2),
                    CompletionView { short: acc.short.push(ts[1]), ..acc },
                );
            } else if t == "-l"@ || t == "--long"@ {
                lemma_rec_keeps_command_absent(
                    ts.skip(2),
                    CompletionView { long: acc.long.push(ts[1]), ..acc },
                );
            } else if t == "-o"@ || t == "--old-option"@ {
                lemma_rec_keeps_command_absent(
                    ts.skip(2),
                    CompletionView { old_option: acc.old_option.push(ts[1]), ..acc },
                );
            } else if t == "-a"@ || t == "--argument"@ {
                if acc.argument is None {
                    lemma_rec_keeps_command_absent(
                        ts.skip(2),
                        CompletionView { argument: Some(ts[1]), ..acc },
                    );
                }
            } else if t == "-d"@ || t == "--description"@ {
                if acc.description is None {
                    lemma_rec_keeps_command_absent(
                        ts.skip(2),
                        CompletionView { description: Some(ts[1]), ..acc },
                    );
                }
            }
        }
    }
}

/// A token list without a command flag never parses into a directive: the
/// grammar either rejects a token outright or ends in
/// [`ParseError::MissingCommand`].  Together with
/// [`Completions::parse_one_completion`], whose contract leaves the store
/// unchanged on every rejected line, such a directive contributes nothing
/// to any store.
pub proof fn lemma_directive_without_command_is_rejected(ts: Seq<Seq<char>>)
    requires
        forall|i: int| 0 <= i < ts.len() ==> ts[i] != "-c"@ && ts[i] != "--command"@,
    ensures
        parse_tokens_spec(ts) is Err,
{
    if ts.len() > 0 {
        assert(forall|i: int|
            0 <= i < ts.skip(1).len() ==> ts.skip(1)[i] != "-c"@ && ts.skip(1)[i]
                != "--command"@);
        lemma_rec_keeps_command_absent(ts.skip(1), empty_acc());
    }
}

/// Whether a token begins with a dash, disqualifying it as a flag value.
fn starts_with_dash(t: &String) -> (r: bool)
    ensures
        r == !is_value_token(t@),
{
    let s = t.as_str();
    s.unicode_len() >= 1 && s.get_char(0) == '-'
}

/// Interpret an already split token list under the flag grammar.
pub fn parse_tokens(tokens: &Vec<String>) -> (r: Result<CompletionLine, ParseError>)
    ensures
        match r {
            Ok(c) => parse_tokens_spec(tokens.deep_view()) == Ok::<CompletionView, ParseError>(c@),
            Err(e) => parse_tokens_spec(tokens.deep_view()) == Err::<CompletionView, ParseError>(
                e,
            ),
        },
{
    let ghost ts = tokens.deep_view();
    if tokens.len() == 0 {
        return Err(ParseError::MissingCommand);
    }
    let mut acc = CompletionLine::new();
    let mut i: usize = 1;
    proof {
        assert(acc@ =~= empty_acc());
    }
    while i < tokens.len()
        invariant
            1 <= i <= ts.len(),
            ts == tokens.deep_view(),
            ts.len() == tokens@.len(),
            parse_tokens_rec(ts.skip(1), empty_acc()) == parse_tokens_rec(ts.skip(i as int), acc@),
        decreases ts.len() - i,
    {
        let ghost tail = ts.skip(i as int);
        proof {
            assert(tail[0] == ts[i as int]);
            assert(tail.len() == ts.len() - i);
            if i + 1 < ts.len() {
                assert(tail[1] == ts[i + 1]);
                assert(tail.skip(2) =~= ts.skip(i + 2));
            }
        }
        let t: &String = &tokens[i];
        let has_value = i + 1 < tokens.len() && !starts_with_dash(&tokens[i + 1]);
        let ghost acc0 = acc@;
        if str_eq(t.as_str(), "-c") || str_eq(t.as_str(), "--command") {
            if has_value && acc.command.is_none() {
                let v: &String = &tokens[i + 1];
                acc.command = Some(v.clone());
                proof {
                    assert(acc@ =~= CompletionView { command: Some(tail[1]), ..acc0 });
                }
                i = i + 2;
            } else {
                return Err(ParseError::UnknownToken);
            }
        } else if str_eq(t.as_str(), "-s") || str_eq(t.as_str(), "--short") {
            if has_value {
                let v: &String = &tokens[i + 1];
                acc.short.push(v.clone());
                proof {
                    assert(acc@ =~= CompletionView { short: acc0.short.push(tail[1]), ..acc0 });
                }
                i = i + 2;
            } else {
                return Err(ParseError::UnknownToken);
            }
        } else if str_eq(t.as_str(), "-l") || str_eq(t.as_str(), "--long") {
            if has_value {
                let v: &String = &tokens[i + 1];
                acc.long.push(v.clone());
                proof {
                    assert(acc@ =~= CompletionView { long: acc0.long.push(tail[1]), ..acc0 });
                }
                i = i + 2;
            } else {
                return Err(ParseError::UnknownToken);
            }
        } else if str_eq(t.as_str(), "-o") || str_eq(t.as_str(), "--old-option") {
            if has_value {
                let v: &String = &tokens[i + 1];
                acc.old_option.push(v.clone());
                proof {
                    assert(acc@ =~= CompletionView {
                        old_option: acc0.old_option.push(tail[1]),
                        ..acc0
                    });
                }
                i = i + 2;
            } else {
                return Err(ParseError::UnknownToken);
            }
        } else if str_eq(t.as_str(), "-a") || str_eq(t.as_str(), "--argument") {
            if has_value && acc.argument.is_none() {
                let v: &String = &tokens[i + 1];
                acc.argument = Some(v.clone());
                proof {
                    assert(acc@ =~= CompletionView { argument: Some(tail[1]), ..acc0 });
                }
                i = i + 2;
            } else {
                return Err(ParseError::UnknownToken);
            }
        } else if str_eq(t.as_str(), "-d") || str_eq(t.as_str(), "--description") {
            if has_value && acc.description.is_none() {
                let v: &String = &tokens[i + 1];
                acc.description = Some(v.clone());
                proof {
                    assert(acc@ =~= CompletionView { description: Some(tail[1]), ..acc0 });
                }
                i = i + 2;
            } else {
                return Err(ParseError::UnknownToken);
            }
        } else {
            return Err(ParseError::UnknownToken);
        }
    }
    proof {
        assert(ts.skip(i as int) =~= Seq::<Seq<char>>::empty());
    }
    match &acc.command {
        Some(_) => Ok(acc),
        None => Err(ParseError::MissingCommand),
    }
}

/// Unescape every string of `v`.
fn unescape_all(v: &Vec<String>) -> (r: Vec<String>)
    ensures
        r.deep_view() == v.deep_view().map_values(|t: Seq<char>| unescape_spec(t)),
{
    let mut out: Vec<String> = Vec::new();
    let mut i: usize = 0;
    while i < v.len()
        invariant
            i <= v@.len(),
            out@.len() == i,
            forall|j: int| 0 <= j < i ==> #[trigger] out@[j]@ == unescape_spec(v.deep_view()[j]),
        decreases v@.len() - i,
    {
        let s: &String = &v[i];
        out.push(CompletionLine::unescape_option_which_starts_with_a_dash(s.as_str()));
        proof {
            assert(v.deep_view()[i as int] == v@[i as int]@);
        }
        i = i + 1;
    }
    proof {
        assert forall|j: int| 0 <= j < v@.len() implies out.deep_view()[j] == v.deep_view(
        ).map_values(|t: Seq<char>| unescape_spec(t))[j] by {
            assert(out.deep_view()[j] == out@[j]@);
        }
        assert(out.deep_view() =~= v.deep_view().map_values(|t: Seq<char>| unescape_spec(t)));
    }
    out
}

/// Unescape one recovered optional value.
fn unescape_opt(v: &Option<String>) -> (r: Option<String>)
    ensures
        r.deep_view() == match v.deep_view() {
            Some(t) => Some(unescape_spec(t)),
            None => None::<Seq<char>>,
        },
{
    match v {
        Some(s) => Some(CompletionLine::unescape_option_which_starts_with_a_dash(s.as_str())),
        None => None,
    }
}

/// Strip the escape sentinel from every recovered value of a parsed
/// directive.
pub fn unescape_completion(c: &CompletionLine) -> (r: CompletionLine)
    ensures
        r@ == unescape_view(c@),
{
    let r = CompletionLine {
        command: match &c.command {
            Some(k) => Some(k.clone()),
            None => None,
        },
        short: unescape_all(&c.short),
        long: unescape_all(&c.long),
        old_option: unescape_all(&c.old_option),
        argument: unescape_opt(&c.argument),
        description: unescape_opt(&c.description),
    };
    proof {
        assert(r@ =~~= unescape_view(c@));
    }
    r
}

/// Parse one whole directive line: escape, adapt the quoting, split into
/// shell words, interpret the flag grammar, and unescape the recovered
/// values.
pub fn parse_completion_line(line: &str) -> (r: Result<CompletionLine, ParseError>)
    ensures
        match r {
            Ok(c) => parse_line_spec(line@) == Ok::<CompletionView, ParseError>(c@),
            Err(e) => parse_line_spec(line@) == Err::<CompletionView, ParseError>(e),
        },
{
    let escaped = CompletionLine::escape_options_which_start_with_a_dash(line);
    let adapted = adapt_quoting(escaped.as_str());
    let tokens = match split_words(adapted.as_str()) {
        Ok(ts) => ts,
        Err(_) => {
            return Err(ParseError::Tokenize);
        },
    };
    match parse_tokens(&tokens) {
        Ok(c) => Ok(unescape_completion(&c)),
        Err(e) => Err(e),
    }
}

/// The per-command index of parsed directives.
pub type StoreView = Seq<(Seq<char>, Seq<CompletionView>)>;

/// A store of parsed directives, one ordered bucket per command, buckets
/// ordered by first appearance of their command.
#[derive(Debug)]
pub struct Completions {
    entries: Vec<(String, Vec<CompletionLine>)>,
}

impl View for Completions {
    type V = StoreView;

    closed spec fn view(&self) -> StoreView {
        self.entries.deep_view()
    }
}

/// The store after appending `c` to the bucket of its command, the bucket
/// being created at the end when absent.
pub open spec fn insert_spec(m: StoreView, c: CompletionView) -> StoreView
    recommends
        c.command is Some,
{
    let key = c.command->0;
    if exists|i: int| 0 <= i < m.len() && m[i].0 == key {
        let i = choose|i: int| 0 <= i < m.len() && m[i].0 == key;
        m.update(i, (key, m[i].1.push(c)))
    } else {
        m.push((key, seq![c]))
    }
}

impl Completions {
    /// No bucket names two commands alike.
    pub open spec fn wf(self) -> bool {
        forall|i: int, j: int| 0 <= i < j < self@.len() ==> self@[i].0 != self@[j].0
    }

    /// The empty store.
    pub fn new() -> (r: Completions)
        ensures
            r.wf(),
            r@ == Seq::<(Seq<char>, Seq<CompletionView>)>::empty(),
    {
        let r = Completions { entries: Vec::new() };
        proof {
            assert(r@ =~= Seq::<(Seq<char>, Seq<CompletionView>)>::empty());
        }
        r
    }

    /// How many commands have a bucket.
    pub fn len(&self) -> (n: usize)
        ensures
            n == self@.len(),
    {
        self.entries.len()
    }

    /// The command name of the bucket at `i`.
    pub fn command_at(&self, i: usize) -> (r: &String)
        requires
            i < self@.len(),
        ensures
            r@ == self@[i as int].0,
    {
        &self.entries[i].0
    }

    /// The directives of the bucket at `i`, in insertion order.
    pub fn bucket_at(&self, i: usize) -> (r: &Vec<CompletionLine>)
        requires
            i < self@.len(),
        ensures
            r.deep_view() == self@[i as int].1,
    {
        &self.entries[i].1
    }

    /// The bucket for `command`, when one exists.
    pub fn get(&self, command: &str) -> (r: Option<&Vec<CompletionLine>>)
        ensures
            match r {
                Some(b) => exists|i: int|
                    0 <= i < self@.len() && self@[i].0 == command@ && b.deep_view()
                        == self@[i].1,
                None => forall|i: int| 0 <= i < self@.len() ==> self@[i].0 != command@,
            },
    {
        let mut i: usize = 0;
        while i < self.entries.len()
            invariant
                i <= self@.len(),
                forall|j: int| 0 <= j < i ==> self@[j].0 != command@,
            decreases self@.len() - i,
        {
            let e: &(String, Vec<CompletionLine>) = &self.entries[i];
            if str_eq(e.0.as_str(), command) {
                let r = &self.entries[i].1;
                proof {
                    assert(self@[i as int] == self.entries@[i as int].deep_view());
                    assert(self@[i as int].0 == command@ && r.deep_view() == self@[i as int].1);
                }
                return Some(r);
            }
            proof {
                assert(self@[i as int] == self.entries@[i as int].deep_view());
            }
            i = i + 1;
        }
        None
    }

    /// Append `c` to the bucket of its command, creating the bucket at the
    /// end when the command has none yet.
    pub fn insert(&mut self, c: CompletionLine)
        requires
            old(self).wf(),
            c@.command is Some,
        ensures
            final(self).wf(),
            final(self)@ == insert_spec(old(self)@, c@),
    {
        let ghost m0 = self@;
        let key: String = match &c.command {
            Some(k) => k.clone(),
            None => {
                proof {
                    assert(false);
                }
                String::new()
            },
        };
        let mut i: usize = 0;
        while i < self.entries.len()
            invariant
                i <= self@.len(),
                *self == *old(self),
                old(self).wf(),
                c@.command is Some,
                m0 == self@,
                key@ == c@.command->0,
                forall|j: int| 0 <= j < i ==> m0[j].0 != key@,
            decreases self@.len() - i,
        {
            let e: &(String, Vec<CompletionLine>) = &self.entries[i];
            if str_eq(e.0.as_str(), key.as_str()) {
                proof {
                    assert(m0[i as int] == self.entries@[i as int].deep_view());
                    assert(m0[i as int].0 == key@);
                }
                let entry = self.entries.remove(i);
                let (k2, mut bucket) = entry;
                bucket.push(c);
                self.entries.insert(i, (k2, bucket));
                proof {
                    assert(old(self).wf());
                    assert(exists|j: int| 0 <= j < m0.len() && m0[j].0 == key@);
                    let ic = choose|j: int| 0 <= j < m0.len() && m0[j].0 == key@;
                    if ic < i as int {
                        assert(m0[ic].0 != m0[i as int].0);
                    } else if ic > i as int {
                        assert(m0[i as int].0 != m0[ic].0);
                    }
                    assert(ic == i as int);
                    let target = m0.update(i as int, (key@, m0[i as int].1.push(c@)));
                    assert forall|j: int| 0 <= j < self@.len() implies self@[j] == target[j] by {
                        assert(self@[j] == self.entries@[j].deep_view());
                        if j < i as int {
                            assert(self.entries@[j] == old(self).entries@[j]);
                            assert(m0[j] == old(self).entries@[j].deep_view());
                        } else if j > i as int {
                            assert(self.entries@[j] == old(self).entries@[j]);
                            assert(m0[j] == old(self).entries@[j].deep_view());
                        } else {
                            assert(bucket.deep_view() =~= m0[i as int].1.push(c@));
                        }
                    }
                    assert(self@ =~= target);
                    assert(insert_spec(m0, c@) == target);
                    assert forall|a: int, b: int| 0 <= a < b < self@.len() implies self@[a].0
                        != self@[b].0 by {
                        assert(self@[a].0 == m0[a].0);
                        assert(self@[b].0 == m0[b].0);
                        assert(m0[a].0 != m0[b].0);
                    }
                    assert(self.wf());
                }
                return;
            }
            proof {
                assert(m0[i as int] == self.entries@[i as int].deep_view());
            }
            i = i + 1;
        }
        let mut bucket: Vec<CompletionLine> = Vec::new();
        bucket.push(c);
        self.entries.push((key, bucket));
        proof {
            assert(old(self).wf());
            assert(!(exists|j: int| 0 <= j < m0.len() && m0[j].0 == key@));
            let target = m0.push((key@, seq![c@]));
            assert forall|j: int| 0 <= j < self@.len() implies self@[j] == target[j] by {
                assert(self@[j] == self.entries@[j].deep_view());
                if j < m0.len() {
                    assert(self.entries@[j] == old(self).entries@[j]);
                    assert(m0[j] == old(self).entries@[j].deep_view());
                } else {
                    assert(bucket.deep_view() =~= seq![c@]);
                }
            }
            assert(self@ =~= target);
            assert(insert_spec(m0, c@) == target);
            assert forall|a: int, b: int| 0 <= a < b < self@.len() implies self@[a].0
                != self@[b].0 by {
                assert(self@[a].0 == m0[a].0);
                if b < m0.len() {
                    assert(self@[b].0 == m0[b].0);
                    assert(m0[a].0 != m0[b].0);
                } else {
                    assert(self@[b].0 == key@);
                    assert(m0[a].0 != key@);
                }
            }
            assert(self.wf());
        }
    }

    /// Parse one directive line and record the directive under its command.
    /// A rejected line is reported and changes nothing.
    pub fn parse_one_completion(&mut self, line: &str) -> (r: Result<(), ParseError>)
        requires
            old(self).wf(),
        ensures
            final(self).wf(),
            match parse_line_spec(line@) {
                Ok(v) => r is Ok && final(self)@ == insert_spec(old(self)@, v),
                Err(e) => r == Err::<(), ParseError>(e) && final(self)@ == old(self)@,
            },
    {
        match parse_completion_line(line) {
            Ok(c) => {
                self.insert(c);
                Ok(())
            },
            Err(e) => Err(e),
        }
    }
}

/// Whether processing skips this line: blank after trimming, or a comment.
pub open spec fn line_skipped(line: Seq<char>) -> bool {
    trim_start_spec(line).len() == 0 || trim_start_spec(line)[0] == '#'
}

/// Processing a list of lines in order: each line is trimmed, skipped when
/// blank or a comment, and otherwise parsed and recorded.  A rejected line
/// ends the run when `fail_fast` is set and is collected otherwise.
pub open spec fn run_spec(
    lines: Seq<Seq<char>>,
    m: StoreView,
    errs: Seq<ParseError>,
    fail_fast: bool,
) -> Result<(StoreView, Seq<ParseError>), ParseError>
    decreases lines.len(),
{
    if lines.len() == 0 {
        Ok((m, errs))
    } else if line_skipped(lines[0]) {
        run_spec(lines.skip(1), m, errs, fail_fast)
    } else {
        match parse_line_spec(trim_start_spec(lines[0])) {
            Ok(v) => run_spec(lines.skip(1), insert_spec(m, v), errs, fail_fast),
            Err(e) => if fail_fast {
                Err(e)
            } else {
                run_spec(lines.skip(1), m, errs.push(e), fail_fast)
            },
        }
    }
}

/// Parse a whole file's lines into a store.  With `fail_fast` the first
/// rejected line aborts the run; otherwise rejected lines are collected and
/// the remaining lines still contribute.
pub fn parse_completions(lines: &Vec<String>, fail_fast: bool) -> (r: Result<
    (Completions, Vec<ParseError>),
    ParseError,
>)
    ensures
        match r {
            Ok(p) => p.0.wf() && run_spec(
                lines.deep_view(),
                Seq::empty(),
                Seq::empty(),
                fail_fast,
            ) == Ok::<(StoreView, Seq<ParseError>), ParseError>((p.0@, p.1@)),
            Err(e) => run_spec(lines.deep_view(), Seq::empty(), Seq::empty(), fail_fast)
                == Err::<(StoreView, Seq<ParseError>), ParseError>(e),
        },
{
    let ghost ls = lines.deep_view();
    let mut store = Completions::new();
    let mut errs: Vec<ParseError> = Vec::new();
    let mut i: usize = 0;
    proof {
        assert(ls.skip(0) =~= ls);
        assert(errs@ =~= Seq::<ParseError>::empty());
    }
    while i < lines.len()
        invariant
            i <= ls.len(),
            ls == lines.deep_view(),
            ls.len() == lines@.len(),
            store.wf(),
            run_spec(ls, Seq::empty(), Seq::empty(), fail_fast) == run_spec(
                ls.skip(i as int),
                store@,
                errs@,
                fail_fast,
            ),
        decreases ls.len() - i,
    {
        proof {
            assert(ls.skip(i as int)[0] == ls[i as int]);
            assert(ls.skip(i as int).skip(1) =~= ls.skip(i + 1));
        }
        let l: &String = &lines[i];
        let trimmed = trim_start(l.as_str());
        let skip_line = trimmed.as_str().unicode_len() == 0 || trimmed.as_str().get_char(0)
            == '#';
        if !skip_line {
            match store.parse_one_completion(trimmed.as_str()) {
                Ok(_) => {},
                Err(e) => {
                    if fail_fast {
                        return Err(e);
                    } else {
                        errs.push(e);
                    }
                },
            }
        }
        i = i + 1;
    }
    proof {
        assert(ls.skip(ls.len() as int) =~= Seq::<Seq<char>>::empty());
    }
    Ok((store, errs))
}

} // verus!
