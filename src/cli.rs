//! The command line: `info <file>` and
//! `subset <file> [-o|--output <path>] [-c|--charset <path>,...] [--presets <name>,...]`.
use vstd::prelude::*;
use vstd::string::*;
use crate::names::strings_view;
use crate::preset::Preset;

verus! {

/// A parsed command line.
pub struct Args {
    pub command: Commands,
}

/// The two commands.
pub enum Commands {
    /// Report on a font file.
    Info { file: String },
    /// Write a subset of a font file.
    Subset {
        file: String,
        /// Where to write; derived from `file` when absent.
        output: Option<String>,
        /// Text files whose characters are kept.
        charset: Vec<String>,
        /// Presets whose blocks are kept.
        presets: Vec<Preset>,
    },
}

/// Why a command line was not understood.
#[derive(Debug, Clone, Copy, PartialEq, Eq, Structural)]
pub enum ArgError {
    /// No command was given.
    MissingCommand,
    /// The command is neither `info` nor `subset`.
    UnknownCommand,
    /// The command has no file argument.
    MissingFile,
    /// An option is last, without its value.
    MissingValue,
    /// A preset name is not one of the known presets.
    UnknownPreset,
    /// An argument that the command does not take.
    UnexpectedArgument,
    /// The output path is given twice.
    RepeatedOutput,
}

/// A command as plain values.
pub enum CommandView {
    Info(Seq<char>),
    Subset(Seq<char>, Option<Seq<char>>, Seq<Seq<char>>, Seq<Preset>),
}

/// An optional string as plain values.
pub open spec fn opt_view(o: Option<String>) -> Option<Seq<char>> {
    match o {
        Some(s) => Some(s@),
        None => None,
    }
}

/// A parsed command line as plain values.
pub open spec fn args_view(a: Args) -> CommandView {
    match a.command {
        Commands::Info { file } => CommandView::Info(file@),
        Commands::Subset { file, output, charset, presets } => CommandView::Subset(
            file@,
            opt_view(output),
            strings_view(charset@),
            presets@,
        ),
    }
}

/// The result of a parse as plain values.
pub open spec fn args_result_view(r: Result<Args, ArgError>) -> Result<CommandView, ArgError> {
    match r {
        Ok(a) => Ok(args_view(a)),
        Err(e) => Err(e),
    }
}

/// The index of the first `,` in `s`, or `s.len()` when there is none.
pub open spec fn first_comma(s: Seq<char>) -> int
    decreases s.len(),
{
    if s.len() == 0 {
        0
    } else if s[0] == ',' {
        0
    } else {
        1 + first_comma(s.drop_first())
    }
}

/// The pieces of `s` between commas, as `str::split(',')` gives them.
pub open spec fn split_commas(s: Seq<char>) -> Seq<Seq<char>>
    decreases s.len(),
{
    let k = first_comma(s);
    if k < 0 || k >= s.len() {
        seq![s]
    } else {
        seq![s.subrange(0, k)] + split_commas(s.subrange(k + 1, s.len() as int))
    }
}

/// The preset that a name on the command line stands for.
pub open spec fn preset_named(s: Seq<char>) -> Option<Preset> {
    if s == "recommended"@ {
        Some(Preset::Recommended)
    } else if s == "punctuation"@ {
        Some(Preset::Punctuation)
    } else if s == "symbols"@ {
        Some(Preset::Symbols)
    } else if s == "bopomofo"@ {
        Some(Preset::Bopomofo)
    } else if s == "cjk-unified-ideographs"@ {
        Some(Preset::CJKUnifiedIdeographs)
    } else if s == "kana"@ {
        Some(Preset::Kana)
    } else if s == "hangul"@ {
        Some(Preset::Hangul)
    } else if s == "ascii"@ {
        Some(Preset::Ascii)
    } else {
        None
    }
}

/// The presets that a list of names stands for, if every name is known.
pub open spec fn presets_named(names: Seq<Seq<char>>) -> Option<Seq<Preset>>
    decreases names.len(),
{
    if names.len() == 0 {
        Some(Seq::empty())
    } else {
        match (preset_named(names.last()), presets_named(names.drop_last())) {
            (Some(p), Some(ps)) => Some(ps.push(p)),
            _ => None,
        }
    }
}

/// Parses the options of `subset` in `toks`, on top of what was gathered so
/// far: an output path (the last one given wins), charset files and presets
/// (appended in order).
pub open spec fn parse_subset_options(
    toks: Seq<Seq<char>>,
    output: Option<Seq<char>>,
    charset: Seq<Seq<char>>,
    presets: Seq<Preset>,
) -> Result<(Option<Seq<char>>, Seq<Seq<char>>, Seq<Preset>), ArgError>
    decreases toks.len(),
{
    if toks.len() == 0 {
        Ok((output, charset, presets))
    } else {
        let t = toks[0];
        let known = t == "-o"@ || t == "--output"@ || t == "-c"@ || t == "--charset"@ || t == "--presets"@;
        if !known {
            Err(ArgError::UnexpectedArgument)
        } else if toks.len() < 2 {
            Err(ArgError::MissingValue)
        } else {
            let v = toks[1];
            let rest = toks.subrange(2, toks.len() as int);
            if t == "-o"@ || t == "--output"@ {
                if output is Some {
                    Err(ArgError::RepeatedOutput)
                } else {
                    parse_subset_options(rest, Some(v), charset, presets)
                }
            } else if t == "-c"@ || t == "--charset"@ {
                parse_subset_options(rest, output, charset + split_commas(v), presets)
            } else {
                match presets_named(split_commas(v)) {
                    Some(ps) => parse_subset_options(rest, output, charset, presets + ps),
                    None => Err(ArgError::UnknownPreset),
                }
            }
        }
    }
}

/// Whether a token can be a file argument: one that starts with `-` is an
/// option (`--help`, `-h`) and is left to the caller.
pub open spec fn is_file_token(t: Seq<char>) -> bool {
    !(t.len() > 0 && t[0] == '-')
}

/// Parses a command line, without the program's name.
pub open spec fn parse_args(toks: Seq<Seq<char>>) -> Result<CommandView, ArgError> {
    if toks.len() == 0 {
        Err(ArgError::MissingCommand)
    } else if toks[0] == "info"@ {
        if toks.len() < 2 || !is_file_token(toks[1]) {
            Err(ArgError::MissingFile)
        } else if toks.len() > 2 {
            Err(ArgError::UnexpectedArgument)
        } else {
            Ok(CommandView::Info(toks[1]))
        }
    } else if toks[0] == "subset"@ {
        if toks.len() < 2 || !is_file_token(toks[1]) {
            Err(ArgError::MissingFile)
        } else {
            match parse_subset_options(toks.subrange(2, toks.len() as int), None, Seq::empty(), Seq::empty()) {
                Ok((o, c, p)) => Ok(CommandView::Subset(toks[1], o, c, p)),
                Err(e) => Err(e),
            }
        }
    } else {
        Err(ArgError::UnknownCommand)
    }
}

/// Whether two strings hold the same characters.
pub fn same_text(a: &str, b: &str) -> (r: bool)
    ensures
        r == (a@ == b@),
{
    let n = a.unicode_len();
    if n != b.unicode_len() {
        return false;
    }
    let mut i: usize = 0;
    while i < n
        invariant
            n == a@.len() == b@.len(),
            i <= n,
            forall|k: int| 0 <= k < i ==> a@[k] == b@[k],
        decreases n - i,
    {
        if a.get_char(i) != b.get_char(i) {
            return false;
        }
        i = i + 1;
    }
    assert(a@ =~= b@);
    true
}

proof fn lemma_first_comma(s: Seq<char>, k: int)
    requires
        0 <= k <= s.len(),
        k < s.len() ==> s[k] == ',',
        forall|j: int| 0 <= j < k ==> s[j] != ',',
    ensures
        first_comma(s) == k,
    decreases s.len(),
{
    if s.len() > 0 && s[0] != ',' {
        lemma_first_comma(s.drop_first(), k - 1);
    }
}

/// Splits `s` at its commas.
pub fn split_at_commas(s: &str) -> (r: Vec<String>)
    ensures
        strings_view(r@) == split_commas(s@),
{
    let n = s.unicode_len();
    let mut r: Vec<String> = Vec::new();
    let mut start: usize = 0;
    let mut j: usize = 0;
    assert(s@.subrange(0, n as int) =~= s@);
    assert(strings_view(r@) =~= Seq::<Seq<char>>::empty());
    assert(Seq::<Seq<char>>::empty() + split_commas(s@) =~= split_commas(s@));
    while j < n
        invariant
            n == s@.len(),
            start <= j <= n,
            forall|k: int| start <= k < j ==> s@[k] != ',',
            split_commas(s@) == strings_view(r@) + split_commas(s@.subrange(start as int, n as int)),
        decreases n - j,
    {
        if s.get_char(j) == ',' {
            let piece = String::from_str(s.substring_char(start, j));
            proof {
                let t = s@.subrange(start as int, n as int);
                lemma_first_comma(t, j - start);
                assert(t.subrange(0, j - start) =~= piece@);
                assert(t.subrange(j - start + 1, t.len() as int) =~= s@.subrange(j + 1, n as int));
            }
            let ghost before = strings_view(r@);
            r.push(piece);
            proof {
                assert(strings_view(r@) =~= before + seq![piece@]);
                assert(before + seq![piece@] + split_commas(s@.subrange(j + 1, n as int)) =~= before + (
                seq![piece@] + split_commas(s@.subrange(j + 1, n as int))));
            }
            start = j + 1;
        }
        j = j + 1;
    }
    let last = String::from_str(s.substring_char(start, n));
    proof {
        let t = s@.subrange(start as int, n as int);
        lemma_first_comma(t, t.len() as int);
    }
    let ghost before = strings_view(r@);
    r.push(last);
    proof {
        assert(strings_view(r@) =~= before + seq![last@]);
    }
    r
}

/// The preset that `name` stands for.
pub fn preset_from_name(name: &str) -> (r: Option<Preset>)
    ensures
        r == preset_named(name@),
{
    if same_text(name, "recommended") {
        Some(Preset::Recommended)
    } else if same_text(name, "punctuation") {
        Some(Preset::Punctuation)
    } else if same_text(name, "symbols") {
        Some(Preset::Symbols)
    } else if same_text(name, "bopomofo") {
        Some(Preset::Bopomofo)
    } else if same_text(name, "cjk-unified-ideographs") {
        Some(Preset::CJKUnifiedIdeographs)
    } else if same_text(name, "kana") {
        Some(Preset::Kana)
    } else if same_text(name, "hangul") {
        Some(Preset::Hangul)
    } else if same_text(name, "ascii") {
        Some(Preset::Ascii)
    } else {
        None
    }
}

/// The presets that a comma-separated list of names stands for, or `None`
/// when a name is unknown.
pub fn presets_from_list(list: &str) -> (r: Option<Vec<Preset>>)
    ensures
        match r {
            Some(v) => presets_named(split_commas(list@)) == Some(v@),
            None => presets_named(split_commas(list@)) is None,
        },
{
    let names = split_at_commas(list);
    let ghost nv = strings_view(names@);
    let mut ps: Vec<Preset> = Vec::new();
    let mut i: usize = 0;
    while i < names.len()
        invariant
            i <= names@.len(),
            nv == strings_view(names@),
            nv == split_commas(list@),
            presets_named(nv.subrange(0, i as int)) == Some(ps@),
        decreases names.len() - i,
    {
        let ghost sub = nv.subrange(0, i as int + 1);
        assert(sub.drop_last() =~= nv.subrange(0, i as int));
        assert(sub.last() == names@[i as int]@);
        assert(nv[i as int] == names@[i as int]@);
        match preset_from_name(names[i].as_str()) {
            Some(p) => ps.push(p),
            None => {
                proof {
                    lemma_unknown_name_poisons(nv, i as int);
                }
                return None;
            },
        }
        i = i + 1;
    }
    assert(nv.subrange(0, nv.len() as int) =~= nv);
    Some(ps)
}

proof fn lemma_unknown_name_poisons(names: Seq<Seq<char>>, i: int)
    requires
        0 <= i < names.len(),
        preset_named(names[i]) is None,
    ensures
        presets_named(names) is None,
    decreases names.len(),
{
    if i < names.len() - 1 {
        lemma_unknown_name_poisons(names.drop_last(), i);
    }
}

/// Whether `t` can be a file argument.
fn file_token(t: &str) -> (r: bool)
    ensures
        r == is_file_token(t@),
{
    !(t.unicode_len() > 0 && t.get_char(0) == '-')
}

/// Parses a command line given without the program's name: `info <file>`,
/// or `subset <file>` followed by its options.
pub fn get_args(argv: &Vec<String>) -> (r: Result<Args, ArgError>)
    ensures
        args_result_view(r) == parse_args(strings_view(argv@)),
{
    let ghost toks = strings_view(argv@);
    let n = argv.len();
    if n == 0 {
        return Err(ArgError::MissingCommand);
    }
    assert(toks[0] == argv@[0]@);
    if same_text(argv[0].as_str(), "info") {
        if n < 2 {
            return Err(ArgError::MissingFile);
        }
        assert(toks[1] == argv@[1]@);
        if !file_token(argv[1].as_str()) {
            return Err(ArgError::MissingFile);
        }
        if n > 2 {
            return Err(ArgError::UnexpectedArgument);
        }
        assert(toks[1] == argv@[1]@);
        return Ok(Args { command: Commands::Info { file: argv[1].clone() } });
    }
    if !same_text(argv[0].as_str(), "subset") {
        return Err(ArgError::UnknownCommand);
    }
    if n < 2 {
        return Err(ArgError::MissingFile);
    }
    assert(toks[1] == argv@[1]@);
    if !file_token(argv[1].as_str()) {
        return Err(ArgError::MissingFile);
    }
    let mut output: Option<String> = None;
    let mut charset: Vec<String> = Vec::new();
    let mut presets: Vec<Preset> = Vec::new();
    let ghost goal = parse_subset_options(toks.subrange(2, n as int), None, Seq::empty(), Seq::empty());
    assert(strings_view(charset@) =~= Seq::<Seq<char>>::empty());
    let mut i: usize = 2;
    while i < n
        invariant
            2 <= i <= n,
            n == argv@.len(),
            toks == strings_view(argv@),
            toks[0] == "subset"@,
            toks[0] != "info"@,
            is_file_token(toks[1]),
            goal == parse_subset_options(toks.subrange(2, n as int), None, Seq::empty(), Seq::empty()),
            goal == parse_subset_options(
                toks.subrange(i as int, n as int),
                opt_view(output),
                strings_view(charset@),
                presets@,
            ),
        decreases n - i,
    {
        let ghost rest = toks.subrange(i as int, n as int);
        assert(rest[0] == argv@[i as int]@);
        let t = argv[i].as_str();
        let is_output = same_text(t, "-o") || same_text(t, "--output");
        let is_charset = same_text(t, "-c") || same_text(t, "--charset");
        let is_presets = same_text(t, "--presets");
        if !is_output && !is_charset && !is_presets {
            return Err(ArgError::UnexpectedArgument);
        }
        if i + 1 >= n {
            return Err(ArgError::MissingValue);
        }
        assert(rest[1] == argv@[i as int + 1]@);
        assert(rest.subrange(2, rest.len() as int) =~= toks.subrange(i as int + 2, n as int));
        let v = argv[i + 1].as_str();
        if is_output {
            if output.is_some() {
                return Err(ArgError::RepeatedOutput);
            }
            output = Some(String::from_str(v));
        } else if is_charset {
            let mut pieces = split_at_commas(v);
            let ghost before = strings_view(charset@);
            let ghost added = strings_view(pieces@);
            charset.append(&mut pieces);
            assert(strings_view(charset@) =~= before + added);
        } else {
            match presets_from_list(v) {
                Some(mut ps) => presets.append(&mut ps),
                None => {
                    return Err(ArgError::UnknownPreset);
                },
            }
        }
        i = i + 2;
    }
    assert(toks.subrange(n as int, n as int) =~= Seq::<Seq<char>>::empty());
    Ok(Args {
        command: Commands::Subset { file: argv[1].clone(), output, charset, presets },
    })
}

} // verus!
