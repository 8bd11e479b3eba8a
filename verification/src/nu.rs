//! The definition generator: turning a store of parsed directives into
//! nushell `export extern` blocks.
//!
//! Each command receives one block.  Within a block every directive yields
//! one canonical definition line; extra names for the same option are
//! collected and rendered after the definitions as synonym lines.  A
//! directive carrying old-style single-dash long options has no counterpart
//! in the target grammar and is skipped with a warning, as is a directive
//! with no usable option name at all.

use vstd::prelude::*;

use crate::completion_line::{CompletionLine, CompletionView};
use crate::completions::{parse_completions, run_spec, Completions, ParseError, StoreView};
use crate::text::{chars_of, contains_seq, indent_unit, lemma_spaces_add, push_string, spaces_spec, str_contains, string_from_chars};

verus! {

/// A directive the generator had to leave out of the output.
#[derive(Debug, Clone)]
pub enum GenerationWarning {
    /// The directive declared old-style single-dash long options, which the
    /// target grammar cannot express; it produced no output.
    OldStyleOptionsSkipped { command: String, options: Vec<String> },
    /// The directive declared no short, long or old-style option at all.
    NoUsableOption { command: String },
}

/// The mathematical model of a [`GenerationWarning`].
#[verifier::ext_equal]
pub enum WarningView {
    OldStyleOptionsSkipped { command: Seq<char>, options: Seq<Seq<char>> },
    NoUsableOption { command: Seq<char> },
}

impl View for GenerationWarning {
    type V = WarningView;

    open spec fn view(&self) -> WarningView {
        match self {
            GenerationWarning::OldStyleOptionsSkipped { command, options } => {
                WarningView::OldStyleOptionsSkipped {
                    command: command.deep_view(),
                    options: options.deep_view(),
                }
            },
            GenerationWarning::NoUsableOption { command } => {
                WarningView::NoUsableOption { command: command.deep_view() }
            },
        }
    }
}

impl DeepView for GenerationWarning {
    type V = WarningView;

    open spec fn deep_view(&self) -> WarningView {
        self.view()
    }
}

/// One extra name for an option whose canonical definition already stands:
/// rendered as a reference rather than redefined.
#[derive(Debug, Clone)]
pub struct Synonym {
    /// The alias, dashes included, e.g. `-R`.
    pub name: String,
    /// The canonical spelling the alias refers to, e.g. `--recursive`.
    pub synonym_of: String,
    /// The description of the directive the alias came from.
    pub description: Option<String>,
}

/// The mathematical model of a [`Synonym`].
#[verifier::ext_equal]
pub struct SynonymView {
    pub name: Seq<char>,
    pub synonym_of: Seq<char>,
    pub description: Option<Seq<char>>,
}

impl View for Synonym {
    type V = SynonymView;

    open spec fn view(&self) -> SynonymView {
        SynonymView {
            name: self.name.deep_view(),
            synonym_of: self.synonym_of.deep_view(),
            description: self.description.deep_view(),
        }
    }
}

impl DeepView for Synonym {
    type V = SynonymView;

    open spec fn deep_view(&self) -> SynonymView {
        self.view()
    }
}

/// The canonical definition chosen for a directive: the first long option
/// (with the first short option as a parenthetical alias), else the first
/// short option, else nothing.  A directive with old-style options is not
/// representable and has no definition.
pub open spec fn canonical_def(d: CompletionView) -> Option<Seq<char>> {
    if d.old_option.len() > 0 {
        None
    } else if d.long.len() > 0 {
        if d.short.len() > 0 {
            Some("--"@ + d.long[0] + "(-"@ + d.short[0] + ")"@)
        } else {
            Some("--"@ + d.long[0])
        }
    } else if d.short.len() > 0 {
        Some("-"@ + d.short[0])
    } else {
        None
    }
}

/// The synonyms a directive contributes: every short option beyond the
/// first and every long option beyond the first, each referring to the
/// canonical definition and carrying the directive's description.
pub open spec fn directive_synonyms(d: CompletionView) -> Seq<SynonymView> {
    if d.old_option.len() > 0 {
        Seq::empty()
    } else if d.long.len() > 0 {
        let canon = "--"@ + d.long[0];
        let from_short: Seq<SynonymView> = if d.short.len() > 0 {
            Seq::new(
                (d.short.len() - 1) as nat,
                |k: int|
                    SynonymView {
                        name: "-"@ + d.short[k + 1],
                        synonym_of: canon,
                        description: d.description,
                    },
            )
        } else {
            Seq::empty()
        };
        let from_long: Seq<SynonymView> = Seq::new(
            (d.long.len() - 1) as nat,
            |k: int|
                SynonymView {
                    name: "--"@ + d.long[k + 1],
                    synonym_of: canon,
                    description: d.description,
                },
        );
        from_short + from_long
    } else if d.short.len() > 0 {
        let canon = "-"@ + d.short[0];
        Seq::new(
            (d.short.len() - 1) as nat,
            |k: int|
                SynonymView {
                    name: "-"@ + d.short[k + 1],
                    synonym_of: canon,
                    description: d.description,
                },
        )
    } else {
        Seq::empty()
    }
}

/// The warning a directive raises, if any.
pub open spec fn directive_warning(display: Seq<char>, d: CompletionView) -> Option<WarningView> {
    if d.old_option.len() > 0 {
        Some(WarningView::OldStyleOptionsSkipped { command: display, options: d.old_option })
    } else if d.long.len() == 0 && d.short.len() == 0 {
        Some(WarningView::NoUsableOption { command: display })
    } else {
        None
    }
}

/// The typed-value suffix appended when the directive takes an argument.
pub open spec fn arg_suffix(d: CompletionView) -> Seq<char> {
    if d.argument is Some {
        ": string"@
    } else {
        Seq::empty()
    }
}

/// The trailing comment carrying the description, when one is present.
pub open spec fn desc_suffix(d: CompletionView) -> Seq<char> {
    match d.description {
        Some(t) => "  # "@ + t,
        None => Seq::empty(),
    }
}

/// The rendered definition line of a directive, when it has one.
pub open spec fn def_line(d: CompletionView) -> Option<Seq<char>> {
    match canonical_def(d) {
        Some(def) => Some(spaces_spec(4) + def + arg_suffix(d) + desc_suffix(d)),
        None => None,
    }
}

/// The rendered line of one synonym.
pub open spec fn synonym_line(s: SynonymView) -> Seq<char> {
    spaces_spec(4) + s.name + " # "@ + (match s.description {
        Some(t) => t + " (synonym of "@ + s.synonym_of + ")"@,
        None => "synonym of "@ + s.synonym_of,
    })
}

/// A singleton sequence for a present line, nothing for an absent one.
pub open spec fn opt_seq<T>(o: Option<T>) -> Seq<T> {
    match o {
        Some(x) => seq![x],
        None => Seq::empty(),
    }
}

/// The definition lines of a directive list, in order.
pub open spec fn def_lines(opts: Seq<CompletionView>) -> Seq<Seq<char>>
    decreases opts.len(),
{
    if opts.len() == 0 {
        Seq::empty()
    } else {
        opt_seq(def_line(opts[0])) + def_lines(opts.skip(1))
    }
}

/// The synonyms of a directive list, in order.
pub open spec fn all_synonyms(opts: Seq<CompletionView>) -> Seq<SynonymView>
    decreases opts.len(),
{
    if opts.len() == 0 {
        Seq::empty()
    } else {
        directive_synonyms(opts[0]) + all_synonyms(opts.skip(1))
    }
}

/// The warnings of a directive list, in order.
pub open spec fn block_warnings(display: Seq<char>, opts: Seq<CompletionView>) -> Seq<WarningView>
    decreases opts.len(),
{
    if opts.len() == 0 {
        Seq::empty()
    } else {
        opt_seq(directive_warning(display, opts[0])) + block_warnings(display, opts.skip(1))
    }
}

/// The line opening a command's block.
pub open spec fn header_line(display: Seq<char>) -> Seq<char> {
    "export extern \""@ + display + "\" ["@
}

/// A command's whole block: the header, one line per representable
/// directive, one line per accumulated synonym, and the closing bracket.
pub open spec fn block_lines(display: Seq<char>, opts: Seq<CompletionView>) -> Seq<Seq<char>> {
    seq![header_line(display)] + def_lines(opts) + all_synonyms(opts).map_values(
        |s: SynonymView| synonym_line(s),
    ) + seq!["]"@]
}

/// Indentation strings, four spaces per level, memoized for the lifetime of
/// one generation run.
#[derive(Debug)]
pub struct IndentCache {
    levels: Vec<String>,
}

impl IndentCache {
    /// Every cached level holds exactly its spaces.
    pub closed spec fn wf(self) -> bool {
        forall|i: int|
            0 <= i < self.levels@.len() ==> self.levels@[i]@ == spaces_spec((4 * i) as nat)
    }

    /// An empty cache.
    pub fn new() -> (r: IndentCache)
        ensures
            r.wf(),
    {
        IndentCache { levels: Vec::new() }
    }

    /// The indentation for `level`, filling the cache up to it on first use.
    pub fn indent(&mut self, level: usize) -> (r: String)
        requires
            old(self).wf(),
        ensures
            final(self).wf(),
            r@ == spaces_spec((4 * level) as nat),
    {
        while self.levels.len() <= level
            invariant
                self.wf(),
            decreases level + 1 - self.levels@.len(),
        {
            let n = self.levels.len();
            let next: String = if n == 0 {
                String::new()
            } else {
                let last: &String = &self.levels[n - 1];
                let mut t = last.clone();
                t.append(indent_unit());
                proof {
                    lemma_spaces_add((4 * (n - 1)) as nat, 4);
                }
                t
            };
            self.levels.push(next);
        }
        let r = self.levels[level].clone();
        r
    }
}

/// Clone a vector of strings.
fn clone_string_vec(v: &Vec<String>) -> (r: Vec<String>)
    ensures
        r.deep_view() == v.deep_view(),
{
    let mut out: Vec<String> = Vec::new();
    let mut i: usize = 0;
    while i < v.len()
        invariant
            i <= v@.len(),
            out@.len() == i,
            forall|j: int| 0 <= j < i ==> #[trigger] out@[j]@ == v.deep_view()[j],
        decreases v@.len() - i,
    {
        let s: &String = &v[i];
        out.push(s.clone());
        proof {
            assert(v.deep_view()[i as int] == v@[i as int]@);
        }
        i = i + 1;
    }
    proof {
        assert forall|j: int| 0 <= j < v@.len() implies out.deep_view()[j] == v.deep_view()[j] by {
            assert(out.deep_view()[j] == out@[j]@);
        }
        assert(out.deep_view() =~= v.deep_view());
    }
    out
}

/// Clone an optional string.
fn clone_opt_string(o: &Option<String>) -> (r: Option<String>)
    ensures
        r.deep_view() == o.deep_view(),
{
    match o {
        Some(s) => Some(s.clone()),
        None => None,
    }
}

/// Render one directive into the growing block: its definition line when it
/// has one, its synonyms, and its warning when it raises one.
fn render_directive(
    display: &String,
    d: &CompletionLine,
    cache: &mut IndentCache,
    lines: &mut Vec<String>,
    synonyms: &mut Vec<Synonym>,
    warnings: &mut Vec<GenerationWarning>,
)
    requires
        old(cache).wf(),
    ensures
        final(cache).wf(),
        final(lines).deep_view() == old(lines).deep_view() + opt_seq(def_line(d@)),
        final(synonyms).deep_view() == old(synonyms).deep_view() + directive_synonyms(d@),
        final(warnings).deep_view() == old(warnings).deep_view() + opt_seq(
            directive_warning(display@, d@),
        ),
{
    let ghost lines0 = lines.deep_view();
    let ghost syns0 = synonyms.deep_view();
    let ghost warns0 = warnings.deep_view();
    proof {
        assert(forall|j: int|
            0 <= j < syns0.len() ==> syns0[j] == #[trigger] synonyms@[j].deep_view());
    }
    if d.old_option.len() > 0 {
        let w = GenerationWarning::OldStyleOptionsSkipped {
            command: display.clone(),
            options: clone_string_vec(&d.old_option),
        };
        proof {
            assert(w@ =~~= directive_warning(display@, d@)->0);
        }
        warnings.push(w);
        proof {
            assert(warnings.deep_view() =~~= warns0 + opt_seq(directive_warning(display@, d@)));
            assert(lines.deep_view() =~= lines0 + opt_seq(def_line(d@)));
            assert(synonyms.deep_view() =~= syns0 + directive_synonyms(d@));
        }
        return;
    }
    let def: String;
    if d.long.len() > 0 {
        let long0: &String = &d.long[0];
        let mut canon = String::from_str("--");
        canon.append(long0.as_str());
        proof {
            assert(d@.long[0] == d.long@[0]@);
            assert(canon@ == "--"@ + d@.long[0]);
        }
        if d.short.len() > 0 {
            let short0: &String = &d.short[0];
            let mut t = canon.clone();
            t.append("(-");
            t.append(short0.as_str());
            t.append(")");
            proof {
                assert(d@.short[0] == d.short@[0]@);
                assert(t@ =~= "--"@ + d@.long[0] + "(-"@ + d@.short[0] + ")"@);
            }
            def = t;
            let mut k: usize = 1;
            while k < d.short.len()
                invariant
                    1 <= k <= d.short@.len(),
                    d.short@.len() == d@.short.len(),
                    canon@ == "--"@ + d@.long[0],
                    synonyms@.len() == syns0.len() + k - 1,
                    forall|j: int|
                        0 <= j < syns0.len() ==> syns0[j] == #[trigger] synonyms@[j].deep_view(),
                    forall|j: int|
                        0 <= j < k - 1 ==> #[trigger] synonyms@[syns0.len() + j].deep_view()
                            == (SynonymView {
                            name: "-"@ + d@.short[j + 1],
                            synonym_of: canon@,
                            description: d@.description,
                        }),
                decreases d.short@.len() - k,
            {
                let sk: &String = &d.short[k];
                let mut name = String::from_str("-");
                name.append(sk.as_str());
                let s = Synonym {
                    name,
                    synonym_of: canon.clone(),
                    description: clone_opt_string(&d.description),
                };
                proof {
                    assert(d@.short[k as int] == d.short@[k as int]@);
                    assert(s.deep_view() =~~= (SynonymView {
                        name: "-"@ + d@.short[k as int],
                        synonym_of: canon@,
                        description: d@.description,
                    }));
                }
                synonyms.push(s);
                k = k + 1;
            }
        } else {
            def = canon.clone();
        }
        let ghost mid = synonyms.deep_view();
        let ghost from_short: Seq<SynonymView> = if d@.short.len() > 0 {
            Seq::new(
                (d@.short.len() - 1) as nat,
                |j: int|
                    SynonymView {
                        name: "-"@ + d@.short[j + 1],
                        synonym_of: "--"@ + d@.long[0],
                        description: d@.description,
                    },
            )
        } else {
            Seq::empty()
        };
        proof {
            assert forall|j: int| 0 <= j < synonyms@.len() implies mid[j] == (syns0
                + from_short)[j] by {
                assert(mid[j] == synonyms@[j].deep_view());
                if j >= syns0.len() {
                    let jj = j - syns0.len();
                    assert(synonyms@[syns0.len() + jj].deep_view() == (SynonymView {
                        name: "-"@ + d@.short[jj + 1],
                        synonym_of: canon@,
                        description: d@.description,
                    }));
                }
            }
            assert(mid =~= syns0 + from_short);
            assert(forall|j: int|
                0 <= j < mid.len() ==> mid[j] == #[trigger] synonyms@[j].deep_view());
        }
        let mut k: usize = 1;
        while k < d.long.len()
            invariant
                1 <= k <= d.long@.len(),
                d.long@.len() == d@.long.len(),
                canon@ == "--"@ + d@.long[0],
                synonyms@.len() == mid.len() + k - 1,
                forall|j: int|
                    0 <= j < mid.len() ==> mid[j] == #[trigger] synonyms@[j].deep_view(),
                forall|j: int|
                    0 <= j < k - 1 ==> #[trigger] synonyms@[mid.len() + j].deep_view()
                        == (SynonymView {
                        name: "--"@ + d@.long[j + 1],
                        synonym_of: canon@,
                        description: d@.description,
                    }),
            decreases d.long@.len() - k,
        {
            let lk: &String = &d.long[k];
            let mut name = String::from_str("--");
            name.append(lk.as_str());
            let s = Synonym {
                name,
                synonym_of: canon.clone(),
                description: clone_opt_string(&d.description),
            };
            proof {
                assert(d@.long[k as int] == d.long@[k as int]@);
                assert(s.deep_view() =~~= (SynonymView {
                    name: "--"@ + d@.long[k as int],
                    synonym_of: canon@,
                    description: d@.description,
                }));
            }
            synonyms.push(s);
            k = k + 1;
        }
        proof {
            let from_long: Seq<SynonymView> = Seq::new(
                (d@.long.len() - 1) as nat,
                |j: int|
                    SynonymView {
                        name: "--"@ + d@.long[j + 1],
                        synonym_of: "--"@ + d@.long[0],
                        description: d@.description,
                    },
            );
            assert forall|j: int| 0 <= j < synonyms@.len() implies synonyms.deep_view()[j] == (mid
                + from_long)[j] by {
                assert(synonyms.deep_view()[j] == synonyms@[j].deep_view());
                if j >= mid.len() {
                    let jj = j - mid.len();
                    assert(synonyms@[mid.len() + jj].deep_view() == (SynonymView {
                        name: "--"@ + d@.long[jj + 1],
                        synonym_of: canon@,
                        description: d@.description,
                    }));
                }
            }
            assert(synonyms.deep_view() =~= mid + from_long);
            assert(syns0 + from_short + from_long =~= syns0 + (from_short + from_long));
            assert(synonyms.deep_view() =~= syns0 + directive_synonyms(d@));
        }
    } else if d.short.len() > 0 {
        let short0: &String = &d.short[0];
        let mut canon = String::from_str("-");
        canon.append(short0.as_str());
        proof {
            assert(d@.short[0] == d.short@[0]@);
            assert(canon@ == "-"@ + d@.short[0]);
        }
        def = canon.clone();
        let mut k: usize = 1;
        while k < d.short.len()
            invariant
                1 <= k <= d.short@.len(),
                d.short@.len() == d@.short.len(),
                canon@ == "-"@ + d@.short[0],
                synonyms@.len() == syns0.len() + k - 1,
                forall|j: int|
                    0 <= j < syns0.len() ==> syns0[j] == #[trigger] synonyms@[j].deep_view(),
                forall|j: int|
                    0 <= j < k - 1 ==> #[trigger] synonyms@[syns0.len() + j].deep_view()
                        == (SynonymView {
                        name: "-"@ + d@.short[j + 1],
                        synonym_of: canon@,
                        description: d@.description,
                    }),
            decreases d.short@.len() - k,
        {
            let sk: &String = &d.short[k];
            let mut name = String::from_str("-");
            name.append(sk.as_str());
            let s = Synonym {
                name,
                synonym_of: canon.clone(),
                description: clone_opt_string(&d.description),
            };
            proof {
                assert(d@.short[k as int] == d.short@[k as int]@);
                assert(s.deep_view() =~~= (SynonymView {
                    name: "-"@ + d@.short[k as int],
                    synonym_of: canon@,
                    description: d@.description,
                }));
            }
            synonyms.push(s);
            k = k + 1;
        }
        proof {
            assert forall|j: int| 0 <= j < synonyms@.len() implies synonyms.deep_view()[j] == (
            syns0 + directive_synonyms(d@))[j] by {
                assert(synonyms.deep_view()[j] == synonyms@[j].deep_view());
                if j >= syns0.len() {
                    let jj = j - syns0.len();
                    assert(synonyms@[syns0.len() + jj].deep_view() == (SynonymView {
                        name: "-"@ + d@.short[jj + 1],
                        synonym_of: canon@,
                        description: d@.description,
                    }));
                }
            }
            assert(synonyms.deep_view() =~= syns0 + directive_synonyms(d@));
        }
    } else {
        let w = GenerationWarning::NoUsableOption { command: display.clone() };
        proof {
            assert(w@ =~~= directive_warning(display@, d@)->0);
        }
        warnings.push(w);
        proof {
            assert(warnings.deep_view() =~~= warns0 + opt_seq(directive_warning(display@, d@)));
            assert(lines.deep_view() =~= lines0 + opt_seq(def_line(d@)));
            assert(synonyms.deep_view() =~= syns0 + directive_synonyms(d@));
        }
        return;
    }
    let mut line = cache.indent(1);
    line.append(def.as_str());
    if d.argument.is_some() {
        line.append(": string");
    }
    match &d.description {
        Some(t) => {
            line.append("  # ");
            line.append(t.as_str());
        },
        None => {},
    }
    proof {
        assert(line@ =~= def_line(d@)->0);
    }
    lines.push(line);
    proof {
        assert(lines.deep_view() =~~= lines0 + opt_seq(def_line(d@)));
        assert(warnings.deep_view() =~= warns0 + opt_seq(directive_warning(display@, d@)));
    }
}


/// Render one command's whole block under the given display name.
pub fn render_command_block(
    display: &String,
    opts: &Vec<CompletionLine>,
    cache: &mut IndentCache,
) -> (r: (Vec<String>, Vec<GenerationWarning>))
    requires
        old(cache).wf(),
    ensures
        final(cache).wf(),
        r.0.deep_view() == block_lines(display@, opts.deep_view()),
        r.1.deep_view() == block_warnings(display@, opts.deep_view()),
{
    let ghost dv = opts.deep_view();
    let mut lines: Vec<String> = Vec::new();
    let mut header = String::from_str("export extern \"");
    header.append(display.as_str());
    header.append("\" [");
    proof {
        assert(header@ == header_line(display@));
    }
    lines.push(header);
    let mut synonyms: Vec<Synonym> = Vec::new();
    let mut warnings: Vec<GenerationWarning> = Vec::new();
    let mut i: usize = 0;
    proof {
        assert(dv.skip(0) =~= dv);
        assert(lines.deep_view() =~= seq![header_line(display@)]);
        assert(lines.deep_view().skip(1) =~= Seq::<Seq<char>>::empty());
        assert(synonyms.deep_view() =~= Seq::<SynonymView>::empty());
        assert(warnings.deep_view() =~= Seq::<WarningView>::empty());
    }
    while i < opts.len()
        invariant
            i <= dv.len(),
            dv == opts.deep_view(),
            dv.len() == opts@.len(),
            cache.wf(),
            lines.deep_view().len() >= 1,
            lines.deep_view()[0] == header_line(display@),
            def_lines(dv) == lines.deep_view().skip(1) + def_lines(dv.skip(i as int)),
            all_synonyms(dv) == synonyms.deep_view() + all_synonyms(dv.skip(i as int)),
            block_warnings(display@, dv) == warnings.deep_view() + block_warnings(
                display@,
                dv.skip(i as int),
            ),
        decreases dv.len() - i,
    {
        let ghost tail = dv.skip(i as int);
        proof {
            assert(tail[0] == dv[i as int]);
            assert(dv[i as int] == opts@[i as int].deep_view());
            assert(tail.skip(1) =~= dv.skip(i + 1));
        }
        let o: &CompletionLine = &opts[i];
        let ghost lines_before = lines.deep_view();
        let ghost syns_before = synonyms.deep_view();
        let ghost warns_before = warnings.deep_view();
        render_directive(display, o, cache, &mut lines, &mut synonyms, &mut warnings);
        proof {
            assert(lines.deep_view().skip(1) =~= lines_before.skip(1) + opt_seq(def_line(o@)));
            assert(lines_before.skip(1) + opt_seq(def_line(o@)) + def_lines(dv.skip(i + 1))
                =~= lines_before.skip(1) + (opt_seq(def_line(o@)) + def_lines(dv.skip(i + 1))));
            assert(syns_before + directive_synonyms(o@) + all_synonyms(dv.skip(i + 1))
                =~= syns_before + (directive_synonyms(o@) + all_synonyms(dv.skip(i + 1))));
            assert(warns_before + opt_seq(directive_warning(display@, o@)) + block_warnings(
                display@,
                dv.skip(i + 1),
            ) =~= warns_before + (opt_seq(directive_warning(display@, o@)) + block_warnings(
                display@,
                dv.skip(i + 1),
            )));
        }
        i = i + 1;
    }
    proof {
        assert(dv.skip(dv.len() as int) =~= Seq::<CompletionView>::empty());
        assert(def_lines(dv) == lines.deep_view().skip(1));
        assert(all_synonyms(dv) == synonyms.deep_view());
        assert(forall|j: int|
            0 <= j < synonyms@.len() ==> all_synonyms(dv)[j] == #[trigger] synonyms@[j].deep_view());
    }
    let ghost mapped = all_synonyms(dv).map_values(|s: SynonymView| synonym_line(s));
    let ghost base = lines.deep_view();
    let mut k: usize = 0;
    proof {
        assert(lines.deep_view() =~= base + mapped.take(0));
        assert(base == lines.deep_view().take(base.len() as int));
    }
    while k < synonyms.len()
        invariant
            k <= synonyms@.len(),
            cache.wf(),
            mapped == all_synonyms(dv).map_values(|s: SynonymView| synonym_line(s)),
            mapped.len() == synonyms@.len(),
            forall|j: int|
                0 <= j < synonyms@.len() ==> all_synonyms(dv)[j] == #[trigger] synonyms@[j].deep_view(),
            lines.deep_view() == base + mapped.take(k as int),
        decreases synonyms@.len() - k,
    {
        let s: &Synonym = &synonyms[k];
        let mut line = cache.indent(1);
        line.append(s.name.as_str());
        line.append(" # ");
        match &s.description {
            Some(t) => {
                line.append(t.as_str());
                line.append(" (synonym of ");
                line.append(s.synonym_of.as_str());
                line.append(")");
            },
            None => {
                line.append("synonym of ");
                line.append(s.synonym_of.as_str());
            },
        }
        proof {
            assert(line@ =~= synonym_line(synonyms@[k as int].deep_view()));
            assert(mapped[k as int] == synonym_line(all_synonyms(dv)[k as int]));
            assert(line@ == mapped[k as int]);
        }
        push_string(&mut lines, line);
        proof {
            assert(mapped.take(k + 1) =~= mapped.take(k as int).push(mapped[k as int]));
            assert(lines.deep_view() =~= base + mapped.take(k + 1));
        }
        k = k + 1;
    }
    proof {
        assert(mapped.take(mapped.len() as int) =~= mapped);
    }
    proof {
        assert(base =~= seq![header_line(display@)] + def_lines(dv));
    }
    let closing = String::from_str("]");
    push_string(&mut lines, closing);
    proof {
        assert(lines.deep_view() =~= seq![header_line(display@)] + def_lines(dv) + mapped + seq![
            "]"@,
        ]);
        assert(lines.deep_view() == block_lines(display@, dv));
    }
    (lines, warnings)
}


/// Append every line of `src` to `dst`, tracked at the level of views.
fn append_lines(dst: &mut Vec<String>, src: Vec<String>)
    ensures
        final(dst).deep_view() == old(dst).deep_view() + src.deep_view(),
{
    let ghost pre = dst.deep_view();
    let ghost extra = src.deep_view();
    let ghost srcv = src@;
    let mut rest = src;
    dst.append(&mut rest);
    proof {
        assert forall|j: int| 0 <= j < dst@.len() implies dst.deep_view()[j] == (pre + extra)[j]
        by {
            assert(dst.deep_view()[j] == dst@[j]@);
            if j < pre.len() {
                assert(dst@[j] == old(dst)@[j]);
                assert(pre[j] == old(dst)@[j]@);
            } else {
                assert(dst@[j] == srcv[j - pre.len()]);
                assert(extra[j - pre.len()] == srcv[j - pre.len()]@);
            }
        }
        assert(dst.deep_view() =~= pre + extra);
    }
}

/// Append every warning of `src` to `dst`, tracked at the level of views.
fn append_warnings(dst: &mut Vec<GenerationWarning>, src: Vec<GenerationWarning>)
    ensures
        final(dst).deep_view() == old(dst).deep_view() + src.deep_view(),
{
    let ghost pre = dst.deep_view();
    let ghost extra = src.deep_view();
    let ghost srcv = src@;
    let mut rest = src;
    dst.append(&mut rest);
    proof {
        assert forall|j: int| 0 <= j < dst@.len() implies dst.deep_view()[j] == (pre + extra)[j]
        by {
            assert(dst.deep_view()[j] == dst@[j]@);
            if j < pre.len() {
                assert(dst@[j] == old(dst)@[j]);
                assert(pre[j] == old(dst)@[j]@);
            } else {
                assert(dst@[j] == srcv[j - pre.len()]);
                assert(extra[j - pre.len()] == srcv[j - pre.len()]@);
            }
        }
        assert(dst.deep_view() =~= pre + extra);
    }
}

/// The command name with every dash turned into a space.
pub open spec fn dash_to_space(s: Seq<char>) -> Seq<char> {
    s.map_values(|c: char| if c == '-' { ' ' } else { c })
}

/// The name a command's block displays: the name itself when it resolves to
/// an executable on the search path, and otherwise the name with dashes
/// turned into spaces, recovering subcommands that were flattened into one
/// hyphenated identifier.
pub open spec fn display_name_spec(cmd: Seq<char>, resolved: bool) -> Seq<char> {
    if resolved {
        cmd
    } else {
        dash_to_space(cmd)
    }
}

/// Relies on `which::which`: whether the name resolves to an executable on
/// the search path.  The answer depends on the machine's `PATH` and
/// filesystem, so nothing is promised of it.
#[verifier::external_body]
fn resolves_on_search_path(name: &str) -> bool {
    which::which(name).is_ok()
}

/// The display name under a known resolution answer.
pub fn display_name_for(cmd: &String, resolved: bool) -> (r: String)
    ensures
        r@ == display_name_spec(cmd@, resolved),
{
    if resolved {
        return cmd.clone();
    }
    let cs = chars_of(cmd.as_str());
    let mut out: Vec<char> = Vec::new();
    let mut i: usize = 0;
    while i < cs.len()
        invariant
            i <= cs@.len(),
            cs@ == cmd@,
            out@.len() == i,
            forall|j: int|
                0 <= j < i ==> out@[j] == (if cmd@[j] == '-' {
                    ' '
                } else {
                    cmd@[j]
                }),
        decreases cs@.len() - i,
    {
        let c = cs[i];
        if c == '-' {
            out.push(' ');
        } else {
            out.push(c);
        }
        i = i + 1;
    }
    proof {
        assert(out@ =~= dash_to_space(cmd@));
    }
    string_from_chars(&out)
}

/// The display name of a command, consulting the search path.
fn display_name(cmd: &String) -> (r: (String, Ghost<bool>))
    ensures
        r.0@ == display_name_spec(cmd@, r.1@),
{
    let resolved = resolves_on_search_path(cmd.as_str());
    let name = display_name_for(cmd, resolved);
    (name, Ghost(resolved))
}

/// The lines and warnings of a whole store, one block per command in store
/// order, under the given per-command resolution answers.
pub open spec fn generate_spec(m: StoreView, resolved: Seq<bool>) -> (Seq<Seq<char>>, Seq<
    WarningView,
>)
    decreases m.len(),
{
    if m.len() == 0 {
        (Seq::empty(), Seq::empty())
    } else {
        let display = display_name_spec(m[0].0, resolved[0]);
        let rest = generate_spec(m.skip(1), resolved.skip(1));
        (block_lines(display, m[0].1) + rest.0, block_warnings(display, m[0].1) + rest.1)
    }
}

/// Whether `lines` and `warns` are exactly what [`generate_spec`] yields for
/// the store under some per-command resolution answers.
pub open spec fn generate_matches(
    m: StoreView,
    resolved: Seq<bool>,
    lines: Seq<Seq<char>>,
    warns: Seq<WarningView>,
) -> bool {
    resolved.len() == m.len() && generate_spec(m, resolved) == (lines, warns)
}

/// Generation grows block by block.
proof fn lemma_generate_push(
    m: StoreView,
    rs: Seq<bool>,
    x: (Seq<char>, Seq<CompletionView>),
    b: bool,
)
    requires
        rs.len() == m.len(),
    ensures
        generate_spec(m.push(x), rs.push(b)) == (
            generate_spec(m, rs).0 + block_lines(display_name_spec(x.0, b), x.1),
            generate_spec(m, rs).1 + block_warnings(display_name_spec(x.0, b), x.1),
        ),
    decreases m.len(),
{
    let display = display_name_spec(x.0, b);
    if m.len() == 0 {
        assert(m.push(x)[0] == x);
        assert(m.push(x).skip(1) =~= m);
        assert(rs.push(b).skip(1) =~= rs);
        assert(block_lines(display, x.1) + Seq::<Seq<char>>::empty() =~= block_lines(
            display,
            x.1,
        ));
        assert(block_warnings(display, x.1) + Seq::<WarningView>::empty() =~= block_warnings(
            display,
            x.1,
        ));
        assert(Seq::<Seq<char>>::empty() + block_lines(display, x.1) =~= block_lines(
            display,
            x.1,
        ));
        assert(Seq::<WarningView>::empty() + block_warnings(display, x.1) =~= block_warnings(
            display,
            x.1,
        ));
    } else {
        lemma_generate_push(m.skip(1), rs.skip(1), x, b);
        assert(m.push(x).skip(1) =~= m.skip(1).push(x));
        assert(rs.push(b).skip(1) =~= rs.skip(1).push(b));
        assert(m.push(x)[0] == m[0]);
        assert(rs.push(b)[0] == rs[0]);
        let d0 = display_name_spec(m[0].0, rs[0]);
        let rest = generate_spec(m.skip(1), rs.skip(1));
        assert(block_lines(d0, m[0].1) + (rest.0 + block_lines(display, x.1)) =~= (block_lines(
            d0,
            m[0].1,
        ) + rest.0) + block_lines(display, x.1));
        assert(block_warnings(d0, m[0].1) + (rest.1 + block_warnings(display, x.1))
            =~= (block_warnings(d0, m[0].1) + rest.1) + block_warnings(display, x.1));
    }
}

/// Render every command's block, in store order.  Which display name each
/// block carries depends on what the search path holds, so the contract
/// states the result for some sequence of per-command resolution answers.
pub fn generate(store: &Completions) -> (r: (Vec<String>, Vec<GenerationWarning>))
    ensures
        exists|resolved: Seq<bool>|
            #[trigger] generate_matches(store@, resolved, r.0.deep_view(), r.1.deep_view()),
{
    let mut lines: Vec<String> = Vec::new();
    let mut warnings: Vec<GenerationWarning> = Vec::new();
    let mut cache = IndentCache::new();
    let ghost mut rs: Seq<bool> = Seq::empty();
    let mut i: usize = 0;
    proof {
        assert(store@.take(0) =~= Seq::<(Seq<char>, Seq<CompletionView>)>::empty());
        assert(lines.deep_view() =~= Seq::<Seq<char>>::empty());
        assert(warnings.deep_view() =~= Seq::<WarningView>::empty());
    }
    while i < store.len()
        invariant
            i <= store@.len(),
            cache.wf(),
            rs.len() == i,
            generate_spec(store@.take(i as int), rs) == (lines.deep_view(), warnings.deep_view()),
        decreases store@.len() - i,
    {
        let cmd: &String = store.command_at(i);
        let (display, b) = display_name(cmd);
        let opts: &Vec<CompletionLine> = store.bucket_at(i);
        let (bl, bw) = render_command_block(&display, opts, &mut cache);
        let ghost rs0 = rs;
        proof {
            rs = rs.push(b@);
        }
        let ghost lines_before = lines.deep_view();
        let ghost warns_before = warnings.deep_view();
        append_lines(&mut lines, bl);
        append_warnings(&mut warnings, bw);
        proof {
            lemma_generate_push(
                store@.take(i as int),
                rs0,
                (store@[i as int].0, store@[i as int].1),
                b@,
            );
            assert((store@[i as int].0, store@[i as int].1) == store@[i as int]);
            assert(store@.take(i + 1) =~= store@.take(i as int).push(store@[i as int]));
        }
        i = i + 1;
    }
    proof {
        assert(store@.take(store@.len() as int) =~= store@);
    }
    let r = (lines, warnings);
    proof {
        assert(generate_matches(store@, rs, r.0.deep_view(), r.1.deep_view()));
    }
    r
}

/// All lines joined, each ended by a newline.
pub open spec fn joined_lines(lines: Seq<Seq<char>>) -> Seq<char>
    decreases lines.len(),
{
    if lines.len() == 0 {
        Seq::empty()
    } else {
        lines[0] + "\n"@ + joined_lines(lines.skip(1))
    }
}

/// Join rendered lines into one file text, each line ended by a newline.
pub fn render_lines(lines: &Vec<String>) -> (r: String)
    ensures
        r@ == joined_lines(lines.deep_view()),
{
    let ghost dv = lines.deep_view();
    let mut out = String::new();
    let mut i: usize = 0;
    proof {
        assert(dv.skip(0) =~= dv);
        assert(Seq::<char>::empty() + joined_lines(dv) =~= joined_lines(dv));
    }
    while i < lines.len()
        invariant
            i <= dv.len(),
            dv == lines.deep_view(),
            dv.len() == lines@.len(),
            joined_lines(dv) == out@ + joined_lines(dv.skip(i as int)),
        decreases dv.len() - i,
    {
        let ghost out0 = out@;
        proof {
            assert(dv.skip(i as int)[0] == dv[i as int]);
            assert(dv[i as int] == lines@[i as int]@);
            assert(dv.skip(i as int).skip(1) =~= dv.skip(i + 1));
        }
        let l: &String = &lines[i];
        out.append(l.as_str());
        out.append("\n");
        proof {
            assert(out@ =~= out0 + (dv[i as int] + "\n"@));
            assert(out0 + (dv[i as int] + "\n"@) + joined_lines(dv.skip(i + 1)) =~= out0 + (
            dv[i as int] + "\n"@ + joined_lines(dv.skip(i + 1))));
        }
        i = i + 1;
    }
    proof {
        assert(dv.skip(dv.len() as int) =~= Seq::<Seq<char>>::empty());
    }
    out
}

/// A path quoted for a `source` statement: every backslash or double quote
/// escaped by a backslash.
pub open spec fn path_escape(s: Seq<char>) -> Seq<char>
    decreases s.len(),
{
    if s.len() == 0 {
        s
    } else if s[0] == '"' || s[0] == '\\' {
        seq!['\\', s[0]] + path_escape(s.skip(1))
    } else {
        seq![s[0]] + path_escape(s.skip(1))
    }
}

/// The statement sourcing one definition file.
pub open spec fn source_line_spec(path: Seq<char>) -> Seq<char> {
    "source \""@ + path_escape(path) + "\""@
}

/// Render the statement sourcing one definition file.
pub fn render_source_line(path: &String) -> (r: String)
    ensures
        r@ == source_line_spec(path@),
{
    let cs = chars_of(path.as_str());
    let mut esc: Vec<char> = Vec::new();
    let mut i: usize = 0;
    proof {
        assert(cs@.skip(0) =~= cs@);
    }
    while i < cs.len()
        invariant
            i <= cs@.len(),
            cs@ == path@,
            path_escape(path@) == esc@ + path_escape(path@.skip(i as int)),
        decreases cs@.len() - i,
    {
        let ghost esc0 = esc@;
        let c = cs[i];
        if c == '"' || c == '\\' {
            esc.push('\\');
            esc.push(c);
            proof {
                assert(esc@ =~= esc0 + seq!['\\', path@[i as int]]);
            }
        } else {
            esc.push(c);
            proof {
                assert(esc@ =~= esc0 + seq![path@[i as int]]);
            }
        }
        proof {
            assert(path@.skip(i as int).skip(1) =~= path@.skip(i + 1));
            assert(path@.skip(i as int)[0] == path@[i as int]);
            if path@[i as int] == '"' || path@[i as int] == '\\' {
                assert(esc0 + seq!['\\', path@[i as int]] + path_escape(path@.skip(i + 1))
                    =~= esc0 + (seq!['\\', path@[i as int]] + path_escape(path@.skip(i + 1))));
            } else {
                assert(esc0 + seq![path@[i as int]] + path_escape(path@.skip(i + 1)) =~= esc0 + (
                seq![path@[i as int]] + path_escape(path@.skip(i + 1))));
            }
        }
        i = i + 1;
    }
    proof {
        assert(path@.skip(path@.len() as int) =~= Seq::<char>::empty());
    }
    let mut out = String::from_str("source \"");
    out.append(string_from_chars(&esc).as_str());
    out.append("\"");
    proof {
        assert(out@ =~= source_line_spec(path@));
    }
    out
}

/// The text of the file sourcing every generated definition, one `source`
/// statement per line, in the order the definitions were produced.
pub open spec fn sourcing_file_spec(defs: Seq<Seq<char>>) -> Seq<char>
    decreases defs.len(),
{
    if defs.len() == 0 {
        Seq::empty()
    } else {
        source_line_spec(defs[0]) + "\n"@ + sourcing_file_spec(defs.skip(1))
    }
}

/// Render the file sourcing every generated definition.
pub fn sourcing_file_text(defs: &Vec<String>) -> (r: String)
    ensures
        r@ == sourcing_file_spec(defs.deep_view()),
{
    let ghost dv = defs.deep_view();
    let mut out = String::new();
    let mut i: usize = 0;
    proof {
        assert(dv.skip(0) =~= dv);
        assert(Seq::<char>::empty() + sourcing_file_spec(dv) =~= sourcing_file_spec(dv));
    }
    while i < defs.len()
        invariant
            i <= dv.len(),
            dv == defs.deep_view(),
            dv.len() == defs@.len(),
            sourcing_file_spec(dv) == out@ + sourcing_file_spec(dv.skip(i as int)),
        decreases dv.len() - i,
    {
        let ghost out0 = out@;
        proof {
            assert(dv.skip(i as int)[0] == dv[i as int]);
            assert(dv[i as int] == defs@[i as int]@);
            assert(dv.skip(i as int).skip(1) =~= dv.skip(i + 1));
        }
        let d: &String = &defs[i];
        let line = render_source_line(d);
        out.append(line.as_str());
        out.append("\n");
        proof {
            assert(out@ =~= out0 + (source_line_spec(dv[i as int]) + "\n"@));
            assert(out0 + (source_line_spec(dv[i as int]) + "\n"@) + sourcing_file_spec(
                dv.skip(i + 1),
            ) =~= out0 + (source_line_spec(dv[i as int]) + "\n"@ + sourcing_file_spec(
                dv.skip(i + 1),
            )));
        }
        i = i + 1;
    }
    proof {
        assert(dv.skip(dv.len() as int) =~= Seq::<Seq<char>>::empty());
    }
    out
}

/// The first line containing `needle`, scanning from the top.
pub fn find_line_containing(lines: &Vec<String>, needle: &str) -> (r: Option<usize>)
    ensures
        match r {
            Some(i) => i < lines@.len() && contains_seq(lines.deep_view()[i as int], needle@)
                && forall|j: int|
                0 <= j < i ==> !contains_seq(#[trigger] lines.deep_view()[j], needle@),
            None => forall|j: int|
                0 <= j < lines@.len() ==> !contains_seq(#[trigger] lines.deep_view()[j], needle@),
        },
{
    let mut i: usize = 0;
    while i < lines.len()
        invariant
            i <= lines@.len(),
            forall|j: int| 0 <= j < i ==> !contains_seq(#[trigger] lines.deep_view()[j], needle@),
        decreases lines@.len() - i,
    {
        let l: &String = &lines[i];
        proof {
            assert(lines.deep_view()[i as int] == lines@[i as int]@);
        }
        if str_contains(l.as_str(), needle) {
            return Some(i);
        }
        i = i + 1;
    }
    None
}

/// The outcome of converting one file's lines: the rendered file text, the
/// lines that were rejected, and the directives the generator left out.
#[derive(Debug)]
pub struct ConvertOutput {
    /// The generated file text, one `export extern` block per command.
    pub text: String,
    /// One entry per rejected directive line, in input order.
    pub errors: Vec<ParseError>,
    /// One entry per directive the generator skipped.
    pub warnings: Vec<GenerationWarning>,
}

/// Whether `text` and `warns` are exactly the rendering of the store under
/// some per-command resolution answers.
pub open spec fn convert_ok_matches(
    m: StoreView,
    resolved: Seq<bool>,
    text: Seq<char>,
    warns: Seq<WarningView>,
) -> bool {
    &&& resolved.len() == m.len()
    &&& text == joined_lines(generate_spec(m, resolved).0)
    &&& warns == generate_spec(m, resolved).1
}

/// Convert one file's directive lines into the generated file text: parse
/// every line into the store, render every command's block, and join the
/// lines.  With `fail_fast` the first rejected line aborts the conversion.
pub fn convert_lines(lines: &Vec<String>, fail_fast: bool) -> (r: Result<
    ConvertOutput,
    ParseError,
>)
    ensures
        match r {
            Ok(out) => match run_spec(lines.deep_view(), Seq::empty(), Seq::empty(), fail_fast) {
                Ok(p) => out.errors@ == p.1 && exists|resolved: Seq<bool>|
                    #[trigger] convert_ok_matches(
                        p.0,
                        resolved,
                        out.text@,
                        out.warnings.deep_view(),
                    ),
                Err(_) => false,
            },
            Err(e) => run_spec(lines.deep_view(), Seq::empty(), Seq::empty(), fail_fast)
                == Err::<(StoreView, Seq<ParseError>), ParseError>(e),
        },
{
    let parsed = match parse_completions(lines, fail_fast) {
        Ok(p) => p,
        Err(e) => {
            return Err(e);
        },
    };
    let (store, errors) = parsed;
    let (blocks, warnings) = generate(&store);
    let text = render_lines(&blocks);
    let out = ConvertOutput { text, errors, warnings };
    proof {
        let resolved = choose|resolved: Seq<bool>|
            generate_matches(store@, resolved, blocks.deep_view(), warnings.deep_view());
        assert(generate_matches(store@, resolved, blocks.deep_view(), warnings.deep_view()));
        let p = (store@, errors@);
        assert(run_spec(lines.deep_view(), Seq::empty(), Seq::empty(), fail_fast) == Ok::<
            (StoreView, Seq<ParseError>),
            ParseError,
        >(p));
        assert(out.errors@ == p.1);
        assert(convert_ok_matches(p.0, resolved, out.text@, out.warnings.deep_view()));
    }
    Ok(out)
}

} // verus!
