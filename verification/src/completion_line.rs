//! One parsed completion directive, and the text transforms that make a
//! directive line safe for flag-style parsing.
//!
//! A fish completion line may pass a value that itself begins with a dash,
//! such as `complete -s r -d "--recursive alias"`, which a conventional flag
//! parser would read as a new flag.  [`CompletionLine::escape_options_which_start_with_a_dash`]
//! inserts a sentinel code point before such a dash;
//! [`CompletionLine::unescape_option_which_starts_with_a_dash`] strips every
//! sentinel back out of a recovered value.
//!
//! Fish also escapes an embedded quote with a backslash, while POSIX-style
//! word splitting expects the `'"'"'` idiom; [`adapt_quoting`] rewrites one
//! convention into the other.

use vstd::prelude::*;

use crate::text::{
    chars_of, replace_char, replace_char_spec, replace_pair, replace_pair_spec, string_from_chars,
};

verus! {

/// The sentinel code point inserted before a dash that begins a value.
///
/// It is the object-replacement character, which is never expected in
/// genuine completion text; a collision with pre-existing input text is an
/// accepted limitation.
pub open spec fn sentinel() -> char {
    '\u{FFFC}'
}

/// The private marker the quoting adapter uses to hold double-backslash
/// occurrences aside while the quote idiom is rewritten.
pub open spec fn backslash_marker() -> char {
    '\u{FFFD}'
}

/// The single-letter flags that take a value.
pub open spec fn takes_value_flag(c: char) -> bool {
    c == 's' || c == 'l' || c == 'a' || c == 'd' || c == 'o'
}

/// Whether `c` may open a quoted value.
pub open spec fn quote_char(c: char) -> bool {
    c == '"' || c == '\''
}

/// The escape transform: wherever a value-taking flag is followed by a value
/// whose first character is a dash (optionally behind an opening quote), one
/// sentinel is inserted immediately before that dash.  Matches are
/// non-overlapping and found left to right.
pub open spec fn escape_spec(s: Seq<char>) -> Seq<char>
    decreases s.len(),
{
    if s.len() >= 5 && s[0] == ' ' && s[1] == '-' && takes_value_flag(s[2]) && s[3] == ' ' && s[4]
        == '-' {
        s.take(4) + seq![sentinel(), '-'] + escape_spec(s.skip(5))
    } else if s.len() >= 6 && s[0] == ' ' && s[1] == '-' && takes_value_flag(s[2]) && s[3] == ' '
        && quote_char(s[4]) && s[5] == '-' {
        s.take(5) + seq![sentinel(), '-'] + escape_spec(s.skip(6))
    } else if s.len() >= 1 {
        seq![s[0]] + escape_spec(s.skip(1))
    } else {
        s
    }
}

/// The unescape transform: every sentinel is removed.
pub open spec fn unescape_spec(s: Seq<char>) -> Seq<char>
    decreases s.len(),
{
    if s.len() == 0 {
        s
    } else if s[0] == sentinel() {
        unescape_spec(s.skip(1))
    } else {
        seq![s[0]] + unescape_spec(s.skip(1))
    }
}

/// The five-character `'"'"'` idiom that closes a single quote, adds a
/// double-quoted quote, and reopens the single quote.
pub open spec fn quote_idiom() -> Seq<char> {
    seq!['\'', '"', '\'', '"', '\'']
}

/// The quoting adapter: hold every `\\` pair aside behind a marker, rewrite
/// every `\'` into the `'"'"'` idiom, then restore the `\\` pairs.
pub open spec fn adapt_spec(s: Seq<char>) -> Seq<char> {
    replace_char_spec(
        replace_pair_spec(
            replace_pair_spec(s, '\\', '\\', seq![backslash_marker()]),
            '\\',
            '\'',
            quote_idiom(),
        ),
        backslash_marker(),
        seq!['\\', '\\'],
    )
}

/// One parsed completion directive: the command it completes, its option
/// names in declaration order, and whether it takes an argument.
///
/// `short`, `long` and `old_option` are never all non-empty on a directive
/// parsed from a well-formed line, but nothing here forbids it and the
/// generator handles every combination.
#[derive(Debug, Clone)]
pub struct CompletionLine {
    /// The command this directive completes; a directive without one is a
    /// parse error.
    pub command: Option<String>,
    /// Single-character option names, e.g. `-e`.
    pub short: Vec<String>,
    /// Multi-character option names, e.g. `--example`.
    pub long: Vec<String>,
    /// Legacy single-dash multi-character names, e.g. `-like`.
    pub old_option: Vec<String>,
    /// Present when the option consumes a value; the text itself is only
    /// recorded, not interpreted.
    pub argument: Option<String>,
    /// Free-form description shown beside the option.
    pub description: Option<String>,
}

/// The mathematical model of a [`CompletionLine`].
#[verifier::ext_equal]
pub struct CompletionView {
    pub command: Option<Seq<char>>,
    pub short: Seq<Seq<char>>,
    pub long: Seq<Seq<char>>,
    pub old_option: Seq<Seq<char>>,
    pub argument: Option<Seq<char>>,
    pub description: Option<Seq<char>>,
}

impl View for CompletionLine {
    type V = CompletionView;

    open spec fn view(&self) -> CompletionView {
        CompletionView {
            command: self.command.deep_view(),
            short: self.short.deep_view(),
            long: self.long.deep_view(),
            old_option: self.old_option.deep_view(),
            argument: self.argument.deep_view(),
            description: self.description.deep_view(),
        }
    }
}

impl DeepView for CompletionLine {
    type V = CompletionView;

    open spec fn deep_view(&self) -> CompletionView {
        self.view()
    }
}

impl CompletionLine {
    /// The directive with no command, no options, and no description.
    pub fn new() -> (r: CompletionLine)
        ensures
            r@.command is None,
            r@.short == Seq::<Seq<char>>::empty(),
            r@.long == Seq::<Seq<char>>::empty(),
            r@.old_option == Seq::<Seq<char>>::empty(),
            r@.argument is None,
            r@.description is None,
    {
        let r = CompletionLine {
            command: None,
            short: Vec::new(),
            long: Vec::new(),
            old_option: Vec::new(),
            argument: None,
            description: None,
        };
        proof {
            assert(r@.short =~= Seq::<Seq<char>>::empty());
            assert(r@.long =~= Seq::<Seq<char>>::empty());
            assert(r@.old_option =~= Seq::<Seq<char>>::empty());
        }
        r
    }

    /// Insert a sentinel before every option value that starts with a dash,
    /// so the line can be handed to a conventional flag parser.
    pub fn escape_options_which_start_with_a_dash(line: &str) -> (r: String)
        ensures
            r@ == escape_spec(line@),
    {
        let cs = chars_of(line);
        let mut out: Vec<char> = Vec::new();
        let mut i: usize = 0;
        proof {
            assert(cs@.skip(0) =~= cs@);
        }
        while i < cs.len()
            invariant
                i <= cs@.len(),
                cs@ == line@,
                escape_spec(line@) == out@ + escape_spec(line@.skip(i as int)),
            decreases cs@.len() - i,
        {
            let ghost out0 = out@;
            let rest = cs.len() - i;
            if rest >= 5 && cs[i] == ' ' && cs[i + 1] == '-' && is_value_flag(cs[i + 2]) && cs[i
                + 3] == ' ' && cs[i + 4] == '-' {
                out.push(' ');
                out.push('-');
                out.push(cs[i + 2]);
                out.push(' ');
                out.push('\u{FFFC}');
                out.push('-');
                proof {
                    let tail = line@.skip(i as int);
                    assert(tail.take(4) =~= line@.subrange(i as int, i + 4));
                    assert(tail.skip(5) =~= line@.skip(i + 5));
                    assert(out@ =~= out0 + (tail.take(4) + seq![sentinel(), '-']));
                    assert(out0 + (tail.take(4) + seq![sentinel(), '-']) + escape_spec(
                        line@.skip(i + 5),
                    ) =~= out0 + ((tail.take(4) + seq![sentinel(), '-']) + escape_spec(
                        line@.skip(i + 5),
                    )));
                }
                i = i + 5;
            } else if rest >= 6 && cs[i] == ' ' && cs[i + 1] == '-' && is_value_flag(cs[i + 2])
                && cs[i + 3] == ' ' && (cs[i + 4] == '"' || cs[i + 4] == '\'') && cs[i + 5]
                == '-' {
                out.push(' ');
                out.push('-');
                out.push(cs[i + 2]);
                out.push(' ');
                out.push(cs[i + 4]);
                out.push('\u{FFFC}');
                out.push('-');
                proof {
                    let tail = line@.skip(i as int);
                    assert(tail.take(5) =~= line@.subrange(i as int, i + 5));
                    assert(tail.skip(6) =~= line@.skip(i + 6));
                    assert(out@ =~= out0 + (tail.take(5) + seq![sentinel(), '-']));
                    assert(out0 + (tail.take(5) + seq![sentinel(), '-']) + escape_spec(
                        line@.skip(i + 6),
                    ) =~= out0 + ((tail.take(5) + seq![sentinel(), '-']) + escape_spec(
                        line@.skip(i + 6),
                    )));
                }
                i = i + 6;
            } else {
                out.push(cs[i]);
                proof {
                    let tail = line@.skip(i as int);
                    assert(tail.skip(1) =~= line@.skip(i + 1));
                    assert(out@ =~= out0 + seq![tail[0]]);
                    assert(out0 + seq![tail[0]] + escape_spec(line@.skip(i + 1)) =~= out0 + (seq![
                        tail[0],
                    ] + escape_spec(line@.skip(i + 1))));
                }
                i = i + 1;
            }
        }
        proof {
            assert(line@.skip(line@.len() as int) =~= Seq::<char>::empty());
        }
        string_from_chars(&out)
    }

    /// Strip every sentinel out of a previously escaped value.
    pub fn unescape_option_which_starts_with_a_dash(option: &str) -> (r: String)
        ensures
            r@ == unescape_spec(option@),
    {
        let cs = chars_of(option);
        let mut out: Vec<char> = Vec::new();
        let mut i: usize = 0;
        proof {
            assert(cs@.skip(0) =~= cs@);
        }
        while i < cs.len()
            invariant
                i <= cs@.len(),
                cs@ == option@,
                unescape_spec(option@) == out@ + unescape_spec(option@.skip(i as int)),
            decreases cs@.len() - i,
        {
            if cs[i] != '\u{FFFC}' {
                out.push(cs[i]);
            }
            proof {
                assert(option@.skip(i as int).skip(1) =~= option@.skip(i + 1));
            }
            i = i + 1;
        }
        proof {
            assert(option@.skip(option@.len() as int) =~= Seq::<char>::empty());
        }
        string_from_chars(&out)
    }
}

/// Executable test for [`takes_value_flag`].
fn is_value_flag(c: char) -> (r: bool)
    ensures
        r == takes_value_flag(c),
{
    c == 's' || c == 'l' || c == 'a' || c == 'd' || c == 'o'
}

/// Rewrite fish's backslash-escaped quotes into the `'"'"'` idiom expected
/// by POSIX-style word splitting, leaving `\\` pairs untouched.
pub fn adapt_quoting(line: &str) -> (r: String)
    ensures
        r@ == adapt_spec(line@),
{
    let cs = chars_of(line);
    let marker: Vec<char> = vec!['\u{FFFD}'];
    let idiom: Vec<char> = vec!['\'', '"', '\'', '"', '\''];
    let double_backslash: Vec<char> = vec!['\\', '\\'];
    let pass1 = replace_pair(&cs, '\\', '\\', &marker);
    let pass2 = replace_pair(&pass1, '\\', '\'', &idiom);
    let pass3 = replace_char(&pass2, '\u{FFFD}', &double_backslash);
    proof {
        assert(marker@ =~= seq![backslash_marker()]);
        assert(idiom@ =~= quote_idiom());
        assert(double_backslash@ =~= seq!['\\', '\\']);
    }
    string_from_chars(&pass3)
}

/// Unescaping distributes over concatenation.
proof fn lemma_unescape_app(a: Seq<char>, b: Seq<char>)
    ensures
        unescape_spec(a + b) == unescape_spec(a) + unescape_spec(b),
    decreases a.len(),
{
    if a.len() == 0 {
        assert(a + b =~= b);
        assert(unescape_spec(a) + unescape_spec(b) =~= unescape_spec(b));
    } else {
        lemma_unescape_app(a.skip(1), b);
        assert((a + b).skip(1) =~= a.skip(1) + b);
        if a[0] == sentinel() {
        } else {
            assert(seq![a[0]] + (unescape_spec(a.skip(1)) + unescape_spec(b)) =~= (seq![a[0]]
                + unescape_spec(a.skip(1))) + unescape_spec(b));
        }
    }
}

/// Unescaping a one-character sequence.
proof fn lemma_unescape_single(c: char)
    ensures
        unescape_spec(seq![c]) == if c == sentinel() {
            Seq::<char>::empty()
        } else {
            seq![c]
        },
{
    assert(seq![c].skip(1) =~= Seq::<char>::empty());
    assert(unescape_spec(Seq::<char>::empty()) == Seq::<char>::empty());
    if c != sentinel() {
        assert(unescape_spec(seq![c]) == seq![c] + unescape_spec(seq![c].skip(1)));
        assert(seq![c] + Seq::<char>::empty() =~= seq![c]);
    } else {
        assert(unescape_spec(seq![c]) == unescape_spec(seq![c].skip(1)));
    }
}

/// Unescaping the sentinel-dash pair yields the dash alone.
proof fn lemma_unescape_sentinel_dash()
    ensures
        unescape_spec(seq![sentinel(), '-']) == seq!['-'],
{
    assert(seq![sentinel(), '-'].skip(1) =~= seq!['-']);
    lemma_unescape_single('-');
}

/// Unescaping a sentinel-free sequence leaves it unchanged.
proof fn lemma_unescape_clean(s: Seq<char>)
    requires
        forall|i: int| 0 <= i < s.len() ==> s[i] != sentinel(),
    ensures
        unescape_spec(s) == s,
    decreases s.len(),
{
    if s.len() > 0 {
        lemma_unescape_clean(s.skip(1));
        assert(seq![s[0]] + s.skip(1) =~= s);
    }
}

/// Escaping only ever inserts sentinel characters, so unescaping the escaped
/// form of a sentinel-free line restores the line exactly.
pub proof fn lemma_escape_unescape_round_trip(s: Seq<char>)
    requires
        forall|i: int| 0 <= i < s.len() ==> s[i] != sentinel(),
    ensures
        unescape_spec(escape_spec(s)) == s,
    decreases s.len(),
{
    if s.len() >= 5 && s[0] == ' ' && s[1] == '-' && takes_value_flag(s[2]) && s[3] == ' ' && s[4]
        == '-' {
        lemma_escape_unescape_round_trip(s.skip(5));
        lemma_unescape_app(s.take(4) + seq![sentinel(), '-'], escape_spec(s.skip(5)));
        lemma_unescape_app(s.take(4), seq![sentinel(), '-']);
        lemma_unescape_clean(s.take(4));
        lemma_unescape_sentinel_dash();
        assert((s.take(4) + seq![sentinel(), '-']) + escape_spec(s.skip(5)) =~= escape_spec(s));
        assert(s.take(4) + seq!['-'] + s.skip(5) =~= s);
    } else if s.len() >= 6 && s[0] == ' ' && s[1] == '-' && takes_value_flag(s[2]) && s[3] == ' '
        && quote_char(s[4]) && s[5] == '-' {
        lemma_escape_unescape_round_trip(s.skip(6));
        lemma_unescape_app(s.take(5) + seq![sentinel(), '-'], escape_spec(s.skip(6)));
        lemma_unescape_app(s.take(5), seq![sentinel(), '-']);
        lemma_unescape_clean(s.take(5));
        lemma_unescape_sentinel_dash();
        assert((s.take(5) + seq![sentinel(), '-']) + escape_spec(s.skip(6)) =~= escape_spec(s));
        assert(s.take(5) + seq!['-'] + s.skip(6) =~= s);
    } else if s.len() >= 1 {
        lemma_escape_unescape_round_trip(s.skip(1));
        lemma_unescape_app(seq![s[0]], escape_spec(s.skip(1)));
        lemma_unescape_single(s[0]);
        assert(seq![s[0]] + s.skip(1) =~= s);
    }
}

} // verus!
