use vstd::prelude::*;

use crate::text::{
    all_ascii, ascii_lower, ascii_solid_ends, comma_pieces, decimal_usize, parse_usize, split_commas,
    str_eq, str_trimmed, to_lowercase, trim, lemma_trim_solid, lemma_trim_keeps_ascii, lowered,
};

verus! {

/// Aerodynamic model selected for a profiling run.
#[derive(Clone, Copy, Debug, PartialEq, Eq, Structural)]
pub enum ModelKind {
    VpmDirect,
    VpmBh,
    PittPeters,
    Oye,
    Bem,
}

/// Canonical name of each model.
pub open spec fn model_name(k: ModelKind) -> Seq<char> {
    match k {
        ModelKind::VpmDirect => "vpm-direct"@,
        ModelKind::VpmBh => "vpm-bh"@,
        ModelKind::PittPeters => "pitt-peters"@,
        ModelKind::Oye => "oye"@,
        ModelKind::Bem => "bem"@,
    }
}

/// Model named by an already trimmed, lower-cased word; `"all"` and every
/// unknown word name no single model.
pub open spec fn model_from_word(t: Seq<char>) -> Option<ModelKind> {
    if t == "vpm-direct"@ || t == "vpm_direct"@ {
        Some(ModelKind::VpmDirect)
    } else if t == "vpm-bh"@ || t == "vpm_bh"@ {
        Some(ModelKind::VpmBh)
    } else if t == "pitt-peters"@ || t == "pitt_peters"@ || t == "pp"@ {
        Some(ModelKind::PittPeters)
    } else if t == "oye"@ {
        Some(ModelKind::Oye)
    } else if t == "bem"@ {
        Some(ModelKind::Bem)
    } else {
        None
    }
}

/// Every canonical name is plain lower-case ASCII with non-space ends.
pub proof fn lemma_model_name_shape(k: ModelKind)
    ensures
        all_ascii(model_name(k)),
        ascii_solid_ends(model_name(k)),
        ascii_lower(model_name(k)) == model_name(k),
        model_from_word(model_name(k)) == Some(k),
{
    reveal_strlit("vpm-direct");
    reveal_strlit("vpm_direct");
    reveal_strlit("vpm-bh");
    reveal_strlit("vpm_bh");
    reveal_strlit("pitt-peters");
    reveal_strlit("pitt_peters");
    reveal_strlit("pp");
    reveal_strlit("oye");
    reveal_strlit("bem");
    let n = model_name(k);
    assert(ascii_lower(n) =~= n);
    lemma_word_names_its_model(n, k);
}

/// A name with each hyphen written as an underscore.
pub open spec fn underscored(s: Seq<char>) -> Seq<char> {
    s.map_values(|c: char| if c == '-' {
        '_'
    } else {
        c
    })
}

/// A trimmed, lower-cased word names model `k` exactly when it is the
/// model's canonical name, that name with underscores for hyphens, or, for
/// Pitt-Peters, `pp`: every accepted word names its own model and no other.
pub proof fn lemma_word_names_its_model(t: Seq<char>, k: ModelKind)
    ensures
        model_from_word(t) == Some(k) <==> (t == model_name(k) || t == underscored(model_name(k))
            || (k == ModelKind::PittPeters && t == "pp"@)),
{
    reveal_strlit("vpm-direct");
    reveal_strlit("vpm_direct");
    reveal_strlit("vpm-bh");
    reveal_strlit("vpm_bh");
    reveal_strlit("pitt-peters");
    reveal_strlit("pitt_peters");
    reveal_strlit("pp");
    reveal_strlit("oye");
    reveal_strlit("bem");
    assert(underscored("vpm-direct"@) =~= "vpm_direct"@);
    assert(underscored("vpm-bh"@) =~= "vpm_bh"@);
    assert(underscored("pitt-peters"@) =~= "pitt_peters"@);
    assert(underscored("oye"@) =~= "oye"@);
    assert(underscored("bem"@) =~= "bem"@);
    assert("vpm-direct"@[3] != "vpm_direct"@[3]);
    assert("vpm-bh"@[3] != "vpm_bh"@[3]);
    assert("pitt-peters"@[4] != "pitt_peters"@[4]);
    assert("oye"@[0] != "bem"@[0]);
}

impl ModelKind {
    /// Canonical (lower-case, hyphenated) name of the model.
    pub fn name(&self) -> (r: &'static str)
        ensures
            r@ == model_name(*self),
    {
        match self {
            ModelKind::VpmDirect => "vpm-direct",
            ModelKind::VpmBh => "vpm-bh",
            ModelKind::PittPeters => "pitt-peters",
            ModelKind::Oye => "oye",
            ModelKind::Bem => "bem",
        }
    }

    /// Model named by a word that is already trimmed and lower-cased.
    pub fn from_word(t: &str) -> (r: Option<ModelKind>)
        ensures
            r == model_from_word(t@),
    {
        if str_eq(t, "vpm-direct") || str_eq(t, "vpm_direct") {
            Some(ModelKind::VpmDirect)
        } else if str_eq(t, "vpm-bh") || str_eq(t, "vpm_bh") {
            Some(ModelKind::VpmBh)
        } else if str_eq(t, "pitt-peters") || str_eq(t, "pitt_peters") || str_eq(t, "pp") {
            Some(ModelKind::PittPeters)
        } else if str_eq(t, "oye") {
            Some(ModelKind::Oye)
        } else if str_eq(t, "bem") {
            Some(ModelKind::Bem)
        } else {
            None
        }
    }

    /// Model named by a command-line word: surrounding white space is
    /// dropped and case is ignored. `"all"` names no single model.
    pub fn from_str(s: &str) -> (r: Option<ModelKind>)
        ensures
            r == word_model(s@),
            all_ascii(s@) ==> r == model_from_word(ascii_lower(str_trimmed(s@))),
            forall|k: ModelKind|
                all_ascii(s@) && #[trigger] model_name(k) == ascii_lower(s@) ==> r == Some(k),
    {
        let t = trim(s);
        let l = to_lowercase(t);
        let r = ModelKind::from_word(l.as_str());
        proof {
            if all_ascii(s@) {
                lemma_trim_keeps_ascii(s@);
            }
            assert forall|k: ModelKind|
                all_ascii(s@) && #[trigger] model_name(k) == ascii_lower(s@) implies r == Some(k) by {
                lemma_model_name_shape(k);
                let n = model_name(k);
                assert(s@.len() == n.len());
                assert(ascii_lower(s@)[0] == n[0]);
                assert(ascii_lower(s@)[s@.len() - 1] == n[n.len() - 1]);
                lemma_trim_solid(s@);
                assert(t@ == s@);
            }
        }
        r
    }
}

} // verus!

verus! {

/// Which parallelism variants of each wake evaluator are timed.
#[derive(Clone, Copy, Debug, PartialEq, Eq, Structural)]
pub enum TimingMode {
    /// Sequential only (`-seq` rows).
    SeqOnly,
    /// Parallel only (`-par` rows).
    ParOnly,
    /// Both, parallel first then sequential.
    Both,
}

/// `(use_parallel, label suffix)` pairs, as plain values.
pub open spec fn timing_variants(m: TimingMode) -> Seq<(bool, Seq<char>)> {
    match m {
        TimingMode::SeqOnly => seq![(false, "-seq"@)],
        TimingMode::ParOnly => seq![(true, "-par"@)],
        TimingMode::Both => seq![(true, "-par"@), (false, "-seq"@)],
    }
}

impl TimingMode {
    /// `(use_parallel, label suffix)` pairs to time for this mode.
    pub fn variants(self) -> (r: &'static [(bool, &'static str)])
        ensures
            r@.len() == timing_variants(self).len(),
            forall|i: int|
                0 <= i < r@.len() ==> (#[trigger] r@[i]).0 == timing_variants(self)[i].0
                    && r@[i].1@ == timing_variants(self)[i].1,
    {
        match self {
            TimingMode::SeqOnly => &[(false, "-seq")],
            TimingMode::ParOnly => &[(true, "-par")],
            TimingMode::Both => &[(true, "-par"), (false, "-seq")],
        }
    }
}

} // verus!

verus! {

impl TimingMode {
    /// Timing mode chosen by the `--seq` / `--par` flags: one flag alone
    /// restricts the runs to that path, none or both time both paths.
    pub fn from_flags(force_seq: bool, force_par: bool) -> (r: TimingMode)
        ensures
            r == (if force_seq && !force_par {
                TimingMode::SeqOnly
            } else if !force_seq && force_par {
                TimingMode::ParOnly
            } else {
                TimingMode::Both
            }),
    {
        match (force_seq, force_par) {
            (true, false) => TimingMode::SeqOnly,
            (false, true) => TimingMode::ParOnly,
            _ => TimingMode::Both,
        }
    }
}

/// Format of the results table.
#[derive(Clone, Copy, Debug, PartialEq, Eq, Structural)]
pub enum OutputFormat {
    Text,
    Csv,
    Markdown,
}

/// Format named by the word after `--output`; anything unknown means text.
pub open spec fn output_from_word(w: Seq<char>) -> OutputFormat {
    if w == "csv"@ {
        OutputFormat::Csv
    } else if w == "md"@ || w == "markdown"@ {
        OutputFormat::Markdown
    } else {
        OutputFormat::Text
    }
}

impl OutputFormat {
    /// Format named by the word after `--output` (`csv`, `md`/`markdown`,
    /// anything else is text).
    pub fn from_word(w: &str) -> (r: OutputFormat)
        ensures
            r == output_from_word(w@),
    {
        if str_eq(w, "csv") {
            OutputFormat::Csv
        } else if str_eq(w, "md") || str_eq(w, "markdown") {
            OutputFormat::Markdown
        } else {
            OutputFormat::Text
        }
    }
}

/// The five models, in their canonical order.
pub open spec fn all_models() -> Seq<ModelKind> {
    seq![
        ModelKind::VpmDirect,
        ModelKind::VpmBh,
        ModelKind::PittPeters,
        ModelKind::Oye,
        ModelKind::Bem,
    ]
}

/// The five models, in their canonical order.
pub fn all_model_kinds() -> (r: Vec<ModelKind>)
    ensures
        r@ == all_models(),
{
    let r = vec![
        ModelKind::VpmDirect,
        ModelKind::VpmBh,
        ModelKind::PittPeters,
        ModelKind::Oye,
        ModelKind::Bem,
    ];
    assert(r@ =~= all_models());
    r
}

/// Model named by one command-line word (trimmed, case ignored).
pub open spec fn word_model(w: Seq<char>) -> Option<ModelKind> {
    model_from_word(lowered(str_trimmed(w)))
}

/// The models named by a list of words, skipping the words that name none.
pub open spec fn models_of_words(ws: Seq<Seq<char>>) -> Seq<ModelKind>
    decreases ws.len(),
{
    if ws.len() == 0 {
        Seq::empty()
    } else {
        let rest = models_of_words(ws.drop_last());
        match word_model(ws.last()) {
            Some(m) => rest.push(m),
            None => rest,
        }
    }
}

/// The model list after reading one word that is not an option: a model
/// name adds that model, `all` (any case) replaces the list with all five
/// models, anything else is read as a comma-separated list of model names.
pub open spec fn models_after_word(ms: Seq<ModelKind>, a: Seq<char>) -> Seq<ModelKind> {
    match word_model(a) {
        Some(m) => ms.push(m),
        None => if lowered(a) == "all"@ {
            all_models()
        } else {
            ms + models_of_words(comma_pieces(a))
        },
    }
}

/// Options read from the profiler's command line, as plain values.
pub struct ArgsView {
    pub models: Seq<ModelKind>,
    pub max_particles: usize,
    pub duration_words: Seq<Seq<char>>,
    pub output: OutputFormat,
    pub force_seq: bool,
    pub force_par: bool,
    pub long_sweep: bool,
}

/// Options before any argument is read.
pub open spec fn default_args() -> ArgsView {
    ArgsView {
        models: Seq::empty(),
        max_particles: 20000,
        duration_words: Seq::empty(),
        output: OutputFormat::Text,
        force_seq: false,
        force_par: false,
        long_sweep: false,
    }
}

/// Starts with two dashes.
pub open spec fn is_long_option(a: Seq<char>) -> bool {
    a.len() >= 2 && a[0] == '-' && a[1] == '-'
}

/// Reads `args[i..]` on top of `acc`; `None` when help is asked for. An
/// option that takes a value consumes the next word when there is one.
pub open spec fn parse_from(args: Seq<Seq<char>>, i: int, acc: ArgsView) -> Option<ArgsView>
    decreases args.len() - i,
{
    if i < 0 || i >= args.len() {
        Some(acc)
    } else {
        let a = args[i];
        let has_next = i + 1 < args.len();
        if a == "--help"@ || a == "-h"@ {
            None
        } else if a == "--seq"@ {
            parse_from(args, i + 1, ArgsView { force_seq: true, ..acc })
        } else if a == "--par"@ {
            parse_from(args, i + 1, ArgsView { force_par: true, ..acc })
        } else if a == "--long"@ {
            parse_from(args, i + 1, ArgsView { long_sweep: true, ..acc })
        } else if a == "--max-particles"@ {
            if has_next {
                let v = match decimal_usize(args[i + 1]) {
                    Some(v) => v,
                    None => 20000,
                };
                parse_from(args, i + 2, ArgsView { max_particles: v, ..acc })
            } else {
                Some(acc)
            }
        } else if a == "--duration"@ {
            if has_next {
                parse_from(
                    args,
                    i + 2,
                    ArgsView { duration_words: acc.duration_words.push(args[i + 1]), ..acc },
                )
            } else {
                Some(acc)
            }
        } else if a == "--output"@ {
            if has_next {
                parse_from(args, i + 2, ArgsView { output: output_from_word(args[i + 1]), ..acc })
            } else {
                Some(acc)
            }
        } else if !is_long_option(a) {
            parse_from(args, i + 1, ArgsView { models: models_after_word(acc.models, a), ..acc })
        } else {
            parse_from(args, i + 1, acc)
        }
    }
}

/// How one command-line word at position `i` is read: help stops the
/// reading; `--seq`, `--par` and `--long` set their switch; `--max-particles`
/// takes the next word as a number (20000 when it does not read as one);
/// `--duration` collects the next word; a value option at the end of the
/// line ends the reading; a word not starting with two dashes names models;
/// any other option is skipped.
pub proof fn lemma_option_read(args: Seq<Seq<char>>, i: int, acc: ArgsView)
    requires
        0 <= i < args.len(),
    ensures
        args[i] == "--help"@ || args[i] == "-h"@ ==> parse_from(args, i, acc) is None,
        args[i] == "--seq"@ ==> parse_from(args, i, acc) == parse_from(
            args,
            i + 1,
            ArgsView { force_seq: true, ..acc },
        ),
        args[i] == "--par"@ ==> parse_from(args, i, acc) == parse_from(
            args,
            i + 1,
            ArgsView { force_par: true, ..acc },
        ),
        args[i] == "--long"@ ==> parse_from(args, i, acc) == parse_from(
            args,
            i + 1,
            ArgsView { long_sweep: true, ..acc },
        ),
        args[i] == "--max-particles"@ && i + 1 < args.len() ==> parse_from(args, i, acc)
            == parse_from(
            args,
            i + 2,
            ArgsView {
                max_particles: match decimal_usize(args[i + 1]) {
                    Some(v) => v,
                    None => 20000,
                },
                ..acc
            },
        ),
        args[i] == "--duration"@ && i + 1 < args.len() ==> parse_from(args, i, acc) == parse_from(
            args,
            i + 2,
            ArgsView { duration_words: acc.duration_words.push(args[i + 1]), ..acc },
        ),
        (args[i] == "--max-particles"@ || args[i] == "--duration"@ || args[i] == "--output"@) && i
            + 1 == args.len() ==> parse_from(args, i, acc) == Some(acc),
        !is_long_option(args[i]) && args[i] != "-h"@ ==> parse_from(args, i, acc) == parse_from(
            args,
            i + 1,
            ArgsView { models: models_after_word(acc.models, args[i]), ..acc },
        ),
{
    reveal_strlit("--output");
    reveal_strlit("--help");
    reveal_strlit("-h");
    reveal_strlit("--seq");
    reveal_strlit("--par");
    reveal_strlit("--long");
    reveal_strlit("--max-particles");
    reveal_strlit("--duration");
    assert("--help"@[2] != "--seq"@[2]);
    assert("--help"@[2] != "--par"@[2]);
    assert("--help"@[2] != "--long"@[2]);
    assert("--help"@[2] != "--max-particles"@[2]);
    assert("--help"@[2] != "--duration"@[2]);
    assert("--help"@[2] != "--output"@[2]);
    assert("--seq"@[2] != "--par"@[2]);
    assert("--seq"@[2] != "--long"@[2]);
    assert("--seq"@[2] != "--max-particles"@[2]);
    assert("--seq"@[2] != "--duration"@[2]);
    assert("--seq"@[2] != "--output"@[2]);
    assert("--par"@[2] != "--long"@[2]);
    assert("--par"@[2] != "--max-particles"@[2]);
    assert("--par"@[2] != "--duration"@[2]);
    assert("--par"@[2] != "--output"@[2]);
    assert("--long"@[2] != "--max-particles"@[2]);
    assert("--long"@[2] != "--duration"@[2]);
    assert("--long"@[2] != "--output"@[2]);
    assert("--max-particles"@[2] != "--duration"@[2]);
    assert("--max-particles"@[2] != "--output"@[2]);
    assert("--duration"@[2] != "--output"@[2]);
}

/// The word after `--output` picks the format: `md` and `markdown` give a
/// markdown table, `csv` gives CSV, every other word plain text.
pub proof fn lemma_output_words(w: Seq<char>)
    ensures
        output_from_word(w) == OutputFormat::Markdown <==> (w == "md"@ || w == "markdown"@),
        output_from_word(w) == OutputFormat::Csv <==> w == "csv"@,
        output_from_word(w) == OutputFormat::Text <==> !(w == "md"@ || w == "markdown"@ || w
            == "csv"@),
{
    reveal_strlit("md");
    reveal_strlit("markdown");
    reveal_strlit("csv");
    assert("csv"@[0] != "md"@[0]);
}

/// `--output` followed by a word sets the output format to the one that
/// word names and reads on after it; nothing else changes.
pub proof fn lemma_output_option_read(args: Seq<Seq<char>>, i: int, acc: ArgsView)
    requires
        0 <= i,
        i + 1 < args.len(),
        args[i] == "--output"@,
    ensures
        parse_from(args, i, acc) == parse_from(
            args,
            i + 2,
            ArgsView { output: output_from_word(args[i + 1]), ..acc },
        ),
{
    reveal_strlit("--output");
    reveal_strlit("--help");
    reveal_strlit("-h");
    reveal_strlit("--seq");
    reveal_strlit("--par");
    reveal_strlit("--long");
    reveal_strlit("--max-particles");
    reveal_strlit("--duration");
    assert("--output"@[2] != "--help"@[2]);
    assert("--output"@.len() != "-h"@.len());
    assert("--output"@[2] != "--seq"@[2]);
    assert("--output"@[2] != "--par"@[2]);
    assert("--output"@[2] != "--long"@[2]);
    assert("--output"@[2] != "--max-particles"@[2]);
    assert("--output"@[2] != "--duration"@[2]);
}

/// Options read from the profiler's command line.
pub struct ProfileArgs {
    /// Models asked for, in order (empty: none named).
    pub models: Vec<ModelKind>,
    /// Particle cap from `--max-particles` (20000 when absent or unreadable).
    pub max_particles: usize,
    /// Each word given after `--duration`, in order; the last one that reads
    /// as a number of seconds sets the run time.
    pub duration_words: Vec<String>,
    pub output: OutputFormat,
    pub force_seq: bool,
    pub force_par: bool,
    pub long_sweep: bool,
}

impl View for ProfileArgs {
    type V = ArgsView;

    open spec fn view(&self) -> ArgsView {
        ArgsView {
            models: self.models@,
            max_particles: self.max_particles,
            duration_words: self.duration_words@.map_values(|w: String| w@),
            output: self.output,
            force_seq: self.force_seq,
            force_par: self.force_par,
            long_sweep: self.long_sweep,
        }
    }
}

/// The words of a command line, as plain values.
pub open spec fn words(args: Seq<String>) -> Seq<Seq<char>> {
    args.map_values(|w: String| w@)
}

/// Starts with two dashes.
fn starts_with_two_dashes(a: &str) -> (r: bool)
    ensures
        r == is_long_option(a@),
{
    let n = a.unicode_len();
    n >= 2 && a.get_char(0) == '-' && a.get_char(1) == '-'
}

/// Appends the models named by the comma-separated pieces of `a`.
fn push_listed_models(models: &mut Vec<ModelKind>, a: &str)
    ensures
        final(models)@ == old(models)@ + models_of_words(comma_pieces(a@)),
{
    let pieces = split_commas(a);
    let ghost ws = comma_pieces(a@);
    let ghost start = models@;
    let mut j: usize = 0;
    proof {
        assert(ws.take(0) =~= Seq::<Seq<char>>::empty());
        assert(start + models_of_words(ws.take(0)) =~= start);
    }
    while j < pieces.len()
        invariant
            pieces@.len() == ws.len(),
            forall|k: int| 0 <= k < pieces@.len() ==> (#[trigger] pieces@[k])@ == ws[k],
            j <= pieces@.len(),
            models@ == start + models_of_words(ws.take(j as int)),
        decreases pieces@.len() - j,
    {
        let m = ModelKind::from_str(pieces[j].as_str());
        proof {
            assert(ws.take(j + 1).drop_last() =~= ws.take(j as int));
            assert(ws.take(j + 1).last() == pieces@[j as int]@);
        }
        match m {
            Some(k) => {
                models.push(k);
                proof {
                    assert(start + models_of_words(ws.take(j + 1)) =~= (start + models_of_words(
                        ws.take(j as int),
                    )).push(k));
                }
            },
            None => {},
        }
        j = j + 1;
    }
    proof {
        assert(ws.take(pieces@.len() as int) =~= ws);
    }
}

/// Reads the profiler's command line (`args[0]` is the program name).
/// `None` when `--help` or `-h` appears before the options end; otherwise
/// the options as `parse_from` reads them.
pub fn parse_profile_args(args: &Vec<String>) -> (r: Option<ProfileArgs>)
    ensures
        match r {
            None => parse_from(words(args@), 1, default_args()) is None,
            Some(p) => parse_from(words(args@), 1, default_args()) == Some(p@),
        },
{
    let ghost ws = words(args@);
    let mut acc = ProfileArgs {
        models: Vec::new(),
        max_particles: 20000,
        duration_words: Vec::new(),
        output: OutputFormat::Text,
        force_seq: false,
        force_par: false,
        long_sweep: false,
    };
    proof {
        assert(acc@.models =~= default_args().models);
        assert(acc@.duration_words =~= default_args().duration_words);
    }
    let n = args.len();
    let mut i: usize = 1;
    while i < n
        invariant
            n == args@.len(),
            ws == words(args@),
            ws.len() == n,
            i >= 1,
            parse_from(ws, 1, default_args()) == parse_from(ws, i as int, acc@),
        decreases n - i,
    {
        let a = args[i].as_str();
        assert(ws[i as int] == a@);
        let has_next = i + 1 < n;
        if str_eq(a, "--help") || str_eq(a, "-h") {
            return None;
        } else if str_eq(a, "--seq") {
            acc.force_seq = true;
            i = i + 1;
        } else if str_eq(a, "--par") {
            acc.force_par = true;
            i = i + 1;
        } else if str_eq(a, "--long") {
            acc.long_sweep = true;
            i = i + 1;
        } else if str_eq(a, "--max-particles") {
            if has_next {
                assert(ws[i + 1] == args@[i + 1]@);
                acc.max_particles = match parse_usize(args[i + 1].as_str()) {
                    Some(v) => v,
                    None => 20000,
                };
            }
            i = if has_next { i + 2 } else { n };
        } else if str_eq(a, "--duration") {
            if has_next {
                assert(ws[i + 1] == args@[i + 1]@);
                let w = args[i + 1].clone();
                let ghost before = acc@.duration_words;
                acc.duration_words.push(w);
                proof {
                    assert(acc@.duration_words =~= before.push(ws[i + 1]));
                }
            }
            i = if has_next { i + 2 } else { n };
        } else if str_eq(a, "--output") {
            if has_next {
                assert(ws[i + 1] == args@[i + 1]@);
                acc.output = OutputFormat::from_word(args[i + 1].as_str());
            }
            i = if has_next { i + 2 } else { n };
        } else if !starts_with_two_dashes(a) {
            match ModelKind::from_str(a) {
                Some(m) => {
                    acc.models.push(m);
                },
                None => {
                    let low = to_lowercase(a);
                    if str_eq(low.as_str(), "all") {
                        acc.models = all_model_kinds();
                    } else {
                        push_listed_models(&mut acc.models, a);
                    }
                },
            }
            i = i + 1;
        } else {
            i = i + 1;
        }
    }
    Some(acc)
}

} // verus!

verus! {

/// Particle caps swept by default.
pub open spec fn default_counts() -> Seq<usize> {
    seq![500usize, 2000, 5000, 10000, 20000]
}

/// Particle caps swept with `--long`.
pub open spec fn long_counts() -> Seq<usize> {
    seq![2000usize, 5000, 10000, 16000, 32000]
}

/// The wake (vortex-particle) models.
pub open spec fn is_vpm(m: ModelKind) -> bool {
    m == ModelKind::VpmDirect || m == ModelKind::VpmBh
}

/// The models other than the wake models, in order, repeats kept.
pub open spec fn single_models(ms: Seq<ModelKind>) -> Seq<ModelKind>
    decreases ms.len(),
{
    if ms.len() == 0 {
        Seq::empty()
    } else if is_vpm(ms.last()) {
        single_models(ms.drop_last())
    } else {
        single_models(ms.drop_last()).push(ms.last())
    }
}

/// What a profiling session runs, as plain values.
pub struct PlanView {
    pub models: Seq<ModelKind>,
    pub particle_counts: Seq<usize>,
    pub max_particles: usize,
    pub timing_mode: TimingMode,
    pub want_direct: bool,
    pub want_bh: bool,
    pub vpm_caps: Seq<usize>,
    pub single_runs: Seq<ModelKind>,
}

/// The session the options ask for: no model named means all five; `--long`
/// sweeps the large counts and raises the cap to at least 32000; the wake
/// models run once per count at that count bounded by the cap; the other
/// models run once each, in the order named.
pub open spec fn plan_of(a: ArgsView) -> PlanView {
    let models = if a.models.len() == 0 {
        all_models()
    } else {
        a.models
    };
    let counts = if a.long_sweep {
        long_counts()
    } else {
        default_counts()
    };
    let max = if a.long_sweep && a.max_particles < 32000 {
        32000
    } else {
        a.max_particles
    };
    let want_direct = models.contains(ModelKind::VpmDirect);
    let want_bh = models.contains(ModelKind::VpmBh);
    PlanView {
        models,
        particle_counts: counts,
        max_particles: max,
        timing_mode: if a.force_seq && !a.force_par {
            TimingMode::SeqOnly
        } else if !a.force_seq && a.force_par {
            TimingMode::ParOnly
        } else {
            TimingMode::Both
        },
        want_direct,
        want_bh,
        vpm_caps: if want_direct || want_bh {
            counts.map_values(|n: usize| if n < max { n } else { max })
        } else {
            Seq::empty()
        },
        single_runs: single_models(models),
    }
}

/// What a profiling session runs.
pub struct ProfilePlan {
    /// Models to profile (all five when none was named).
    pub models: Vec<ModelKind>,
    /// Particle caps swept for the wake models.
    pub particle_counts: Vec<usize>,
    /// Upper bound on every wake particle cap.
    pub max_particles: usize,
    pub timing_mode: TimingMode,
    pub want_direct: bool,
    pub want_bh: bool,
    /// Particle cap of each wake run, in sweep order (empty when no wake
    /// model is wanted).
    pub vpm_caps: Vec<usize>,
    /// The other models, one run each, in the order named.
    pub single_runs: Vec<ModelKind>,
}

impl View for ProfilePlan {
    type V = PlanView;

    open spec fn view(&self) -> PlanView {
        PlanView {
            models: self.models@,
            particle_counts: self.particle_counts@,
            max_particles: self.max_particles,
            timing_mode: self.timing_mode,
            want_direct: self.want_direct,
            want_bh: self.want_bh,
            vpm_caps: self.vpm_caps@,
            single_runs: self.single_runs@,
        }
    }
}

fn contains_model(ms: &Vec<ModelKind>, m: ModelKind) -> (r: bool)
    ensures
        r == ms@.contains(m),
{
    let mut i: usize = 0;
    while i < ms.len()
        invariant
            i <= ms@.len(),
            forall|j: int| 0 <= j < i ==> ms@[j] != m,
        decreases ms@.len() - i,
    {
        if ms[i] == m {
            return true;
        }
        i = i + 1;
    }
    false
}

/// Turns the command-line options into the session to run.
pub fn plan_profile(args: &ProfileArgs) -> (r: ProfilePlan)
    ensures
        r@ == plan_of(args@),
{
    let ghost spec_plan = plan_of(args@);
    let models = if args.models.len() == 0 {
        all_model_kinds()
    } else {
        args.models.clone()
    };
    let counts: Vec<usize> = if args.long_sweep {
        vec![2000, 5000, 10000, 16000, 32000]
    } else {
        vec![500, 2000, 5000, 10000, 20000]
    };
    proof {
        assert(models@ == spec_plan.models);
        assert(counts@ =~= spec_plan.particle_counts);
    }
    let max = if args.long_sweep && args.max_particles < 32000 {
        32000
    } else {
        args.max_particles
    };
    let want_direct = contains_model(&models, ModelKind::VpmDirect);
    let want_bh = contains_model(&models, ModelKind::VpmBh);
    let mut caps: Vec<usize> = Vec::new();
    if want_direct || want_bh {
        let mut i: usize = 0;
        while i < counts.len()
            invariant
                i <= counts@.len(),
                caps@.len() == i,
                forall|j: int|
                    0 <= j < i ==> #[trigger] caps@[j] == (if counts@[j] < max {
                        counts@[j]
                    } else {
                        max
                    }),
            decreases counts@.len() - i,
        {
            let n = counts[i];
            caps.push(if n < max { n } else { max });
            i = i + 1;
        }
        proof {
            assert(caps@ =~= spec_plan.vpm_caps);
        }
    } else {
        proof {
            assert(caps@ =~= spec_plan.vpm_caps);
        }
    }
    let mut singles: Vec<ModelKind> = Vec::new();
    let mut k: usize = 0;
    proof {
        assert(models@.take(0) =~= Seq::<ModelKind>::empty());
    }
    while k < models.len()
        invariant
            k <= models@.len(),
            singles@ == single_models(models@.take(k as int)),
        decreases models@.len() - k,
    {
        let m = models[k];
        proof {
            assert(models@.take(k + 1).drop_last() =~= models@.take(k as int));
        }
        if !(m == ModelKind::VpmDirect || m == ModelKind::VpmBh) {
            singles.push(m);
        }
        k = k + 1;
    }
    proof {
        assert(models@.take(models@.len() as int) =~= models@);
    }
    let timing_mode = TimingMode::from_flags(args.force_seq, args.force_par);
    ProfilePlan {
        models,
        particle_counts: counts,
        max_particles: max,
        timing_mode,
        want_direct,
        want_bh,
        vpm_caps: caps,
        single_runs: singles,
    }
}

/// Every wake run's particle cap is at most the session's cap, and there
/// is one run per swept count whenever a wake model is wanted.
pub proof fn lemma_caps_within_max(a: ArgsView)
    ensures
        forall|i: int|
            0 <= i < plan_of(a).vpm_caps.len() ==> #[trigger] plan_of(a).vpm_caps[i]
                <= plan_of(a).max_particles,
        (plan_of(a).want_direct || plan_of(a).want_bh) ==> plan_of(a).vpm_caps.len()
            == plan_of(a).particle_counts.len(),
        a.long_sweep ==> plan_of(a).max_particles >= 32000,
{
}

/// When no model is named, all five models are profiled.
pub proof fn lemma_default_models(a: ArgsView)
    requires
        a.models.len() == 0,
    ensures
        plan_of(a).models == all_models(),
        plan_of(a).models == seq![
            ModelKind::VpmDirect,
            ModelKind::VpmBh,
            ModelKind::PittPeters,
            ModelKind::Oye,
            ModelKind::Bem,
        ],
        plan_of(a).want_direct && plan_of(a).want_bh,
        plan_of(a).single_runs == seq![ModelKind::PittPeters, ModelKind::Oye, ModelKind::Bem],
{
    let ms = all_models();
    assert(ms[0] == ModelKind::VpmDirect);
    assert(ms[1] == ModelKind::VpmBh);
    reveal_with_fuel(single_models, 6);
    assert(ms.drop_last() =~= seq![
        ModelKind::VpmDirect,
        ModelKind::VpmBh,
        ModelKind::PittPeters,
        ModelKind::Oye,
    ]);
    assert(ms.drop_last().drop_last() =~= seq![
        ModelKind::VpmDirect,
        ModelKind::VpmBh,
        ModelKind::PittPeters,
    ]);
    assert(ms.drop_last().drop_last().drop_last() =~= seq![
        ModelKind::VpmDirect,
        ModelKind::VpmBh,
    ]);
    assert(ms.drop_last().drop_last().drop_last().drop_last() =~= seq![ModelKind::VpmDirect]);
    assert(ms.drop_last().drop_last().drop_last().drop_last().drop_last() =~= Seq::<
        ModelKind,
    >::empty());
    assert(single_models(ms) =~= seq![ModelKind::PittPeters, ModelKind::Oye, ModelKind::Bem]);
}

/// The direct evaluator is timed exactly when the session's models (those
/// named, or all five when none is) include `vpm-direct`, and the
/// Barnes-Hut evaluator exactly when they include `vpm-bh`.
pub proof fn lemma_evaluators_follow_models(a: ArgsView)
    ensures
        a.models.len() > 0 ==> plan_of(a).models == a.models,
        plan_of(a).want_direct <==> exists|i: int|
            0 <= i < plan_of(a).models.len() && plan_of(a).models[i] == ModelKind::VpmDirect,
        plan_of(a).want_bh <==> exists|i: int|
            0 <= i < plan_of(a).models.len() && plan_of(a).models[i] == ModelKind::VpmBh,
        a.models == seq![ModelKind::VpmBh] ==> !plan_of(a).want_direct && plan_of(a).want_bh,
        a.models == seq![ModelKind::VpmDirect] ==> plan_of(a).want_direct && !plan_of(a).want_bh,
{
    if a.models == seq![ModelKind::VpmBh] {
        assert(plan_of(a).models[0] == ModelKind::VpmBh);
    }
    if a.models == seq![ModelKind::VpmDirect] {
        assert(plan_of(a).models[0] == ModelKind::VpmDirect);
    }
}

/// The non-wake models run once each, in the order named: they are the
/// session's models with `vpm-direct` and `vpm-bh` taken out.
pub proof fn lemma_single_runs_are_the_rest(ms: Seq<ModelKind>)
    ensures
        single_models(ms) == ms.filter(
            |m: ModelKind| m != ModelKind::VpmDirect && m != ModelKind::VpmBh,
        ),
    decreases ms.len(),
{
    let keep = |m: ModelKind| m != ModelKind::VpmDirect && m != ModelKind::VpmBh;
    reveal(Seq::filter);
    if ms.len() > 0 {
        lemma_single_runs_are_the_rest(ms.drop_last());
        assert(ms.filter(keep) == (if keep(ms.last()) {
            ms.drop_last().filter(keep).push(ms.last())
        } else {
            ms.drop_last().filter(keep)
        }));
    } else {
        assert(ms.filter(keep) == ms);
    }
}

/// The timing mode restricts to one variant exactly when just one of
/// `--seq` and `--par` is given; the cap is the one asked for, raised to
/// 32000 by `--long`; each wake run is capped at the smaller of its swept
/// count and the cap.
pub proof fn lemma_plan_settings(a: ArgsView)
    ensures
        plan_of(a).timing_mode == TimingMode::SeqOnly <==> (a.force_seq && !a.force_par),
        plan_of(a).timing_mode == TimingMode::ParOnly <==> (!a.force_seq && a.force_par),
        plan_of(a).timing_mode == TimingMode::Both <==> (a.force_seq == a.force_par),
        plan_of(a).max_particles >= a.max_particles,
        !a.long_sweep ==> plan_of(a).max_particles == a.max_particles,
        a.long_sweep ==> plan_of(a).max_particles == (if a.max_particles < 32000 {
            32000
        } else {
            a.max_particles
        }),
        (plan_of(a).want_direct || plan_of(a).want_bh) ==> forall|i: int|
            0 <= i < plan_of(a).particle_counts.len() ==> {
                let c = #[trigger] plan_of(a).vpm_caps[i];
                let n = plan_of(a).particle_counts[i];
                &&& c <= n
                &&& c <= plan_of(a).max_particles
                &&& (c == n || c == plan_of(a).max_particles)
            },
        !(plan_of(a).want_direct || plan_of(a).want_bh) ==> plan_of(a).vpm_caps.len() == 0,
        !a.long_sweep ==> plan_of(a).particle_counts == seq![500usize, 2000, 5000, 10000, 20000],
        a.long_sweep ==> plan_of(a).particle_counts == seq![2000usize, 5000, 10000, 16000, 32000],
{
}

/// The other models never include a wake model, and keep their order.
pub proof fn lemma_single_runs_exclude_wake(ms: Seq<ModelKind>)
    ensures
        forall|i: int|
            0 <= i < single_models(ms).len() ==> !is_vpm(#[trigger] single_models(ms)[i]),
        single_models(ms).len() <= ms.len(),
    decreases ms.len(),
{
    if ms.len() > 0 {
        lemma_single_runs_exclude_wake(ms.drop_last());
    }
}

} // verus!
