//! Command-line flags: `-flag`, `--flag`, `-flag=value`, flags that may be
//! repeated, and `--` at the end of them.
use vstd::prelude::*;
use vstd::slice::slice_subrange;

use crate::exchange::{bytes_less, lex_less};
use crate::seqs::{find_char, first_index, lemma_first_index};
use crate::text::{chars_of, join2, quoted, string_of};

verus! {

/// What a flag takes.
#[derive(Clone, Copy, Debug, PartialEq, Eq, Structural)]
pub enum FlagType {
    /// Nothing, or a truth value behind `=`.
    Bool,
    /// A text; the last one given counts.
    Text,
    /// A text; all of those given count.
    Slice,
}

/// One flag.
#[derive(Clone, Copy, Debug)]
pub struct FlagSpec {
    pub name: &'static str,
    pub ty: FlagType,
    /// Text shown as the default.
    pub default: Option<&'static str>,
    pub usage: &'static str,
}

/// What was given for a flag.
#[derive(Debug)]
pub enum Given {
    Bool(bool),
    Text(String),
    Item(String),
}

/// A flag with what was given for it.
#[derive(Debug)]
pub struct Setting {
    pub name: &'static str,
    pub value: Given,
}

/// A [`Given`] by its contents.
pub enum GivenView {
    Bool(bool),
    Text(Seq<char>),
    Item(Seq<char>),
}

/// A [`Setting`] by its contents.
pub struct SettingView {
    pub name: Seq<char>,
    pub value: GivenView,
}

impl View for Given {
    type V = GivenView;

    open spec fn view(&self) -> GivenView {
        match self {
            Given::Bool(b) => GivenView::Bool(*b),
            Given::Text(t) => GivenView::Text(t@),
            Given::Item(t) => GivenView::Item(t@),
        }
    }
}

impl View for Setting {
    type V = SettingView;

    open spec fn view(&self) -> SettingView {
        SettingView { name: self.name@, value: self.value@ }
    }
}

/// The flags given, in order.
#[derive(Debug)]
pub struct FlagValues {
    pub given: Vec<Setting>,
}

impl View for FlagValues {
    type V = Seq<SettingView>;

    open spec fn view(&self) -> Seq<SettingView> {
        Seq::new(self.given@.len(), |i: int| self.given@[i]@)
    }
}

/// The last truth value given for `name`, `false` if there was none.
pub open spec fn spec_bool(s: Seq<SettingView>, name: Seq<char>) -> bool
    decreases s.len(),
{
    if s.len() == 0 {
        false
    } else if s.last().name == name && s.last().value is Bool {
        s.last().value->Bool_0
    } else {
        spec_bool(s.drop_last(), name)
    }
}

/// The last text given for `name`, empty if there was none.
pub open spec fn spec_string(s: Seq<SettingView>, name: Seq<char>) -> Seq<char>
    decreases s.len(),
{
    if s.len() == 0 {
        Seq::empty()
    } else if s.last().name == name && s.last().value is Text {
        s.last().value->Text_0
    } else {
        spec_string(s.drop_last(), name)
    }
}

/// All texts given for the repeatable flag `name`, in order.
pub open spec fn spec_slice(s: Seq<SettingView>, name: Seq<char>) -> Seq<Seq<char>>
    decreases s.len(),
{
    if s.len() == 0 {
        Seq::empty()
    } else if s.last().name == name && s.last().value is Item {
        spec_slice(s.drop_last(), name).push(s.last().value->Item_0)
    } else {
        spec_slice(s.drop_last(), name)
    }
}

/// Whether two texts are the same.
pub fn same_text(a: &str, b: &str) -> (r: bool)
    ensures
        r == (a@ == b@),
{
    crate::seqs::same_chars(chars_of(a).as_slice(), chars_of(b).as_slice())
}

impl FlagValues {
    pub fn bool(&self, name: &str) -> (b: bool)
        ensures
            b == spec_bool(self@, name@),
    {
        let mut i: usize = self.given.len();
        assert(self@.take(i as int) =~= self@);
        while i > 0
            invariant
                i <= self.given@.len(),
                spec_bool(self@, name@) == spec_bool(self@.take(i as int), name@),
            decreases i,
        {
            let ghost t = self@.take(i as int);
            i = i - 1;
            assert(t.drop_last() =~= self@.take(i as int));
            assert(t.last() == self.given@[i as int]@);
            match &self.given[i].value {
                Given::Bool(b) => {
                    if same_text(self.given[i].name, name) {
                        return *b;
                    }
                },
                _ => {},
            }
        }
        false
    }

    pub fn string(&self, name: &str) -> (r: String)
        ensures
            r@ == spec_string(self@, name@),
    {
        let mut i: usize = self.given.len();
        assert(self@.take(i as int) =~= self@);
        while i > 0
            invariant
                i <= self.given@.len(),
                spec_string(self@, name@) == spec_string(self@.take(i as int), name@),
            decreases i,
        {
            let ghost t = self@.take(i as int);
            i = i - 1;
            assert(t.drop_last() =~= self@.take(i as int));
            assert(t.last() == self.given@[i as int]@);
            match &self.given[i].value {
                Given::Text(x) => {
                    if same_text(self.given[i].name, name) {
                        return x.clone();
                    }
                },
                _ => {},
            }
        }
        String::new()
    }

    pub fn slice(&self, name: &str) -> (r: Vec<String>)
        ensures
            crate::room::views_of(r@) == spec_slice(self@, name@),
    {
        let mut r: Vec<String> = Vec::new();
        let mut i: usize = 0;
        assert(crate::room::views_of(r@) =~= Seq::empty());
        while i < self.given.len()
            invariant
                i <= self.given@.len(),
                crate::room::views_of(r@) == spec_slice(self@.take(i as int), name@),
            decreases self.given@.len() - i,
        {
            let ghost t = self@.take(i + 1);
            let ghost r0 = r@;
            assert(t.drop_last() =~= self@.take(i as int));
            assert(t.last() == self.given@[i as int]@);
            match &self.given[i].value {
                Given::Item(x) => {
                    if same_text(self.given[i].name, name) {
                        r.push(x.clone());
                        assert(crate::room::views_of(r@) =~= crate::room::views_of(r0).push(x@));
                    }
                },
                _ => {},
            }
            i = i + 1;
        }
        assert(self@.take(i as int) =~= self@);
        r
    }
}

/// Why flags were not accepted.
#[derive(Debug, PartialEq)]
pub enum FlagsError {
    /// Help was asked for.
    Help,
    Message(String),
}

/// A [`FlagsError`] by its contents.
pub enum FlagsErrorView {
    Help,
    Message(Seq<char>),
}

impl View for FlagsError {
    type V = FlagsErrorView;

    open spec fn view(&self) -> FlagsErrorView {
        match self {
            FlagsError::Help => FlagsErrorView::Help,
            FlagsError::Message(m) => FlagsErrorView::Message(m@),
        }
    }
}

/// A truth value in one of its spellings.
pub open spec fn spec_bool_value(s: Seq<char>) -> Option<bool> {
    if s == "1"@ || s == "t"@ || s == "T"@ || s == "true"@ || s == "TRUE"@ || s == "True"@ {
        Some(true)
    } else if s == "0"@ || s == "f"@ || s == "F"@ || s == "false"@ || s == "FALSE"@ || s
        == "False"@ {
        Some(false)
    } else {
        None
    }
}

/// What is said of a text that is no truth value.
pub open spec fn bool_error_text(s: Seq<char>) -> Seq<char> {
    "strconv.ParseBool: parsing "@ + crate::text::quoted_text(s) + ": invalid syntax"@
}

/// Reads a truth value.
pub fn parse_bool_value(s: &str) -> (r: Result<bool, String>)
    ensures
        match spec_bool_value(s@) {
            Some(b) => r == Ok::<bool, String>(b),
            None => r is Err && r->Err_0@ == bool_error_text(s@),
        },
{
    if same_text(s, "1") || same_text(s, "t") || same_text(s, "T") || same_text(s, "true")
        || same_text(s, "TRUE") || same_text(s, "True") {
        Ok(true)
    } else if same_text(s, "0") || same_text(s, "f") || same_text(s, "F") || same_text(s, "false")
        || same_text(s, "FALSE") || same_text(s, "False") {
        Ok(false)
    } else {
        let mut m = join2("strconv.ParseBool: parsing ", quoted(s).as_str());
        m.push_str(": invalid syntax");
        Err(m)
    }
}

/// An argument taken apart.
pub enum ArgView {
    /// It is no flag, or it ends the flags.
    Stop,
    /// It has the dashes of a flag, and no name.
    Bad,
    /// A flag by its name, with what stands behind `=`.
    Flag(Seq<char>, Option<Seq<char>>),
}

/// Reads an argument: one or two dashes, a name, and perhaps `=` and a value.
pub open spec fn spec_arg(s: Seq<char>) -> ArgView {
    if s.len() < 2 || s[0] != '-' || (s[1] == '-' && s.len() == 2) {
        ArgView::Stop
    } else {
        let name = if s[1] == '-' {
            s.skip(2)
        } else {
            s.skip(1)
        };
        let i = first_index(name, '=');
        if name[0] == '-' || name[0] == '=' {
            ArgView::Bad
        } else if i < name.len() {
            ArgView::Flag(name.take(i), Some(name.skip(i + 1)))
        } else {
            ArgView::Flag(name, None)
        }
    }
}

enum Arg {
    Stop,
    Bad,
    Flag(String, Option<String>),
}

impl View for Arg {
    type V = ArgView;

    closed spec fn view(&self) -> ArgView {
        match self {
            Arg::Stop => ArgView::Stop,
            Arg::Bad => ArgView::Bad,
            Arg::Flag(n, None) => ArgView::Flag(n@, None),
            Arg::Flag(n, Some(v)) => ArgView::Flag(n@, Some(v@)),
        }
    }
}

fn read_arg(arg: &str) -> (r: Arg)
    ensures
        r@ == spec_arg(arg@),
{
    let v = chars_of(arg);
    let n: usize = v.len();
    if n < 2 || v[0] != '-' {
        return Arg::Stop;
    }
    let dashes: usize = if v[1] == '-' {
        2
    } else {
        1
    };
    if n == dashes {
        return Arg::Stop;
    }
    let name = slice_subrange(v.as_slice(), dashes, n);
    assert(name@ =~= arg@.skip(dashes as int));
    if name[0] == '-' || name[0] == '=' {
        return Arg::Bad;
    }
    let i = find_char(name, '=');
    if i < name.len() {
        let k: usize = name.len();
        let before = string_of(slice_subrange(name, 0, i));
        let after = string_of(slice_subrange(name, i + 1, k));
        assert(before@ =~= name@.take(i as int));
        assert(after@ =~= name@.skip(i + 1));
        Arg::Flag(before, Some(after))
    } else {
        Arg::Flag(string_of(name), None)
    }
}

/// The position of the first flag called `name`; the number of flags when
/// there is none.
pub open spec fn spec_find_flag(specs: Seq<FlagSpec>, name: Seq<char>) -> int
    decreases specs.len(),
{
    if specs.len() == 0 {
        0
    } else if specs[0].name@ == name {
        0
    } else {
        1 + spec_find_flag(specs.drop_first(), name)
    }
}

fn find_flag(specs: &[FlagSpec], name: &str) -> (i: usize)
    ensures
        i == spec_find_flag(specs@, name@),
        i <= specs@.len(),
        i < specs@.len() ==> specs@[i as int].name@ == name@,
{
    let mut i: usize = 0;
    assert(specs@.skip(0) =~= specs@);
    while i < specs.len()
        invariant
            i <= specs@.len(),
            spec_find_flag(specs@, name@) == i + spec_find_flag(specs@.skip(i as int), name@),
        decreases specs@.len() - i,
    {
        let ghost t = specs@.skip(i as int);
        assert(t[0] == specs@[i as int]);
        if same_text(specs[i].name, name) {
            return i;
        }
        assert(t.drop_first() =~= specs@.skip(i + 1));
        i = i + 1;
    }
    i
}

/// What is said of a truth value that cannot be read.
pub open spec fn bad_bool_text(name: Seq<char>, value: Seq<char>) -> Seq<char> {
    "invalid boolean value "@ + crate::text::quoted_text(value) + " for -"@ + name + ": "@
        + bool_error_text(value)
}

/// A text given for a flag that takes one.
pub open spec fn given_text(ty: FlagType, value: Seq<char>) -> GivenView {
    if ty == FlagType::Slice {
        GivenView::Item(value)
    } else {
        GivenView::Text(value)
    }
}

/// The arguments `args` read behind the flags `seen`.
pub open spec fn spec_parse_from(
    args: Seq<Seq<char>>,
    specs: Seq<FlagSpec>,
    seen: Seq<SettingView>,
) -> Result<Seq<SettingView>, FlagsErrorView>
    decreases args.len(),
{
    if args.len() == 0 {
        Ok(seen)
    } else {
        match spec_arg(args[0]) {
            ArgView::Stop => Ok(seen),
            ArgView::Bad => Err(FlagsErrorView::Message("bad flag syntax: "@ + args[0])),
            ArgView::Flag(name, value) => {
                let k = spec_find_flag(specs, name);
                if k >= specs.len() {
                    if name == "help"@ || name == "h"@ {
                        Err(FlagsErrorView::Help)
                    } else {
                        Err(FlagsErrorView::Message("flag provided but not defined: -"@ + name))
                    }
                } else if specs[k].ty == FlagType::Bool {
                    let read = match value {
                        Some(v) => spec_bool_value(v),
                        None => Some(true),
                    };
                    match read {
                        Some(b) => spec_parse_from(
                            args.skip(1),
                            specs,
                            seen.push(SettingView { name, value: GivenView::Bool(b) }),
                        ),
                        None => Err(FlagsErrorView::Message(bad_bool_text(name, value->0))),
                    }
                } else {
                    match value {
                        Some(v) => spec_parse_from(
                            args.skip(1),
                            specs,
                            seen.push(SettingView { name, value: given_text(specs[k].ty, v) }),
                        ),
                        None => if args.len() < 2 {
                            Err(FlagsErrorView::Message("flag needs an argument: -"@ + name))
                        } else {
                            spec_parse_from(
                                args.skip(2),
                                specs,
                                seen.push(
                                    SettingView { name, value: given_text(specs[k].ty, args[1]) },
                                ),
                            )
                        },
                    }
                }
            },
        }
    }
}

/// The flags in `args`, up to the first argument that is none.
pub open spec fn spec_parse_flags(
    args: Seq<Seq<char>>,
    specs: Seq<FlagSpec>,
) -> Result<Seq<SettingView>, FlagsErrorView> {
    spec_parse_from(args, specs, Seq::empty())
}

fn give(ty: FlagType, value: String) -> (g: Given)
    ensures
        g@ == given_text(ty, value@),
{
    match ty {
        FlagType::Slice => Given::Item(value),
        _ => Given::Text(value),
    }
}

fn message(prefix: &str, rest: &str) -> (e: FlagsError)
    ensures
        e@ == FlagsErrorView::Message(prefix@ + rest@),
{
    FlagsError::Message(join2(prefix, rest))
}

fn bad_bool(name: &str, value: &str, why: &str) -> (e: FlagsError)
    requires
        why@ == bool_error_text(value@),
    ensures
        e@ == FlagsErrorView::Message(bad_bool_text(name@, value@)),
{
    let mut m = join2("invalid boolean value ", quoted(value).as_str());
    m.push_str(" for -");
    m.push_str(name);
    m.push_str(": ");
    m.push_str(why);
    FlagsError::Message(m)
}

/// Reads the flags `specs` at the start of `args`.
pub fn parse_flags(args: &[String], specs: &[FlagSpec]) -> (r: Result<FlagValues, FlagsError>)
    ensures
        match spec_parse_flags(crate::room::views_of(args@), specs@) {
            Ok(v) => r is Ok && r->Ok_0@ == v,
            Err(e) => r is Err && r->Err_0@ == e,
        },
{
    let mut values = FlagValues { given: Vec::new() };
    let mut i: usize = 0;
    let ghost texts = crate::room::views_of(args@);
    let ghost whole = spec_parse_flags(texts, specs@);
    assert(values@ =~= Seq::empty());
    assert(texts.skip(0) =~= texts);
    while i < args.len()
        invariant
            i <= args@.len(),
            texts == crate::room::views_of(args@),
            whole == spec_parse_flags(texts, specs@),
            whole == spec_parse_from(texts.skip(i as int), specs@, values@),
        decreases args@.len() - i,
    {
        let ghost t = texts.skip(i as int);
        let ghost seen = values@;
        assert(t[0] == args@[i as int]@);
        assert(t.skip(1) =~= texts.skip(i + 1));
        match read_arg(args[i].as_str()) {
            Arg::Stop => {
                return Ok(values);
            },
            Arg::Bad => {
                return Err(message("bad flag syntax: ", args[i].as_str()));
            },
            Arg::Flag(name, value) => {
                let k = find_flag(specs, name.as_str());
                if k >= specs.len() {
                    if same_text(name.as_str(), "help") || same_text(name.as_str(), "h") {
                        return Err(FlagsError::Help);
                    }
                    return Err(message("flag provided but not defined: -", name.as_str()));
                }
                let flag = &specs[k];
                let mut step: usize = 1;
                let given = if flag.ty == FlagType::Bool {
                    match value {
                        Some(v) => match parse_bool_value(v.as_str()) {
                            Ok(b) => Given::Bool(b),
                            Err(why) => {
                                return Err(bad_bool(name.as_str(), v.as_str(), why.as_str()));
                            },
                        },
                        None => Given::Bool(true),
                    }
                } else {
                    match value {
                        Some(v) => give(flag.ty, v),
                        None => {
                            if args.len() - i < 2 {
                                return Err(message("flag needs an argument: -", name.as_str()));
                            }
                            step = 2;
                            assert(t[1] == args@[i + 1]@);
                            assert(t.skip(2) =~= texts.skip(i + 2));
                            give(flag.ty, args[i + 1].clone())
                        },
                    }
                };
                let setting = Setting { name: flag.name, value: given };
                let ghost s = setting@;
                values.given.push(setting);
                assert(values@ =~= seen.push(s));
                i = i + step;
            },
        }
    }
    Ok(values)
}

/// Order of two flags in a list of them: by the bytes of their names.
pub open spec fn named_before(a: FlagSpec, b: FlagSpec) -> bool {
    lex_less(vstd::utf8::encode_utf8(a.name@), vstd::utf8::encode_utf8(b.name@))
}

/// `x` put behind the last flag of `s` that does not come after it.
pub open spec fn spec_insert(s: Seq<FlagSpec>, x: FlagSpec) -> Seq<FlagSpec>
    decreases s.len(),
{
    if s.len() == 0 || !named_before(x, s.last()) {
        s.push(x)
    } else {
        spec_insert(s.drop_last(), x).push(s.last())
    }
}

/// The flags `s` in the order of their names.
pub open spec fn spec_by_name(s: Seq<FlagSpec>) -> Seq<FlagSpec>
    decreases s.len(),
{
    if s.len() == 0 {
        s
    } else {
        spec_insert(spec_by_name(s.drop_last()), s.last())
    }
}

proof fn lemma_insert(s: Seq<FlagSpec>, x: FlagSpec, k: int)
    requires
        0 <= k <= s.len(),
        forall|j: int| k <= j < s.len() ==> named_before(x, #[trigger] s[j]),
        k > 0 ==> !named_before(x, s[k - 1]),
    ensures
        spec_insert(s, x) == s.insert(k, x),
    decreases s.len(),
{
    if k == s.len() {
        assert(s.insert(k, x) =~= s.push(x));
    } else {
        let t = s.drop_last();
        assert(s.last() == s[s.len() - 1]);
        assert forall|j: int| k <= j < t.len() implies named_before(x, #[trigger] t[j]) by {
            assert(t[j] == s[j]);
        }
        lemma_insert(t, x, k);
        assert(t.insert(k, x).push(s.last()) =~= s.insert(k, x));
    }
}

fn by_name(specs: &[FlagSpec]) -> (r: Vec<FlagSpec>)
    ensures
        r@ == spec_by_name(specs@),
{
    let mut r: Vec<FlagSpec> = Vec::new();
    let mut i: usize = 0;
    assert(specs@.take(0) =~= Seq::empty());
    while i < specs.len()
        invariant
            i <= specs@.len(),
            r@ == spec_by_name(specs@.take(i as int)),
        decreases specs@.len() - i,
    {
        let x = specs[i];
        let mut k: usize = r.len();
        while k > 0 && bytes_less(x.name.as_bytes(), r[k - 1].name.as_bytes())
            invariant
                k <= r@.len(),
                forall|j: int| k <= j < r@.len() ==> named_before(x, #[trigger] r@[j]),
            decreases k,
        {
            k = k - 1;
        }
        proof {
            let t = specs@.take(i + 1);
            assert(t.drop_last() =~= specs@.take(i as int));
            lemma_insert(r@, x, k as int);
        }
        r.insert(k, x);
        i = i + 1;
    }
    assert(specs@.take(i as int) =~= specs@);
    r
}

/// The lines that describe a flag.
pub open spec fn flag_lines(f: FlagSpec) -> Seq<char> {
    let head = "  -"@ + f.name@ + (match f.ty {
        FlagType::Bool => ""@,
        FlagType::Text => " string"@,
        FlagType::Slice => " value"@,
    });
    let gap = if vstd::utf8::encode_utf8(head).len() <= 4 {
        "\t"@
    } else {
        "\n    \t"@
    };
    let default = match f.default {
        Some(d) => if d@.len() > 0 {
            " (default \""@ + d@ + "\")"@
        } else {
            ""@
        },
        None => ""@,
    };
    head + gap + f.usage@ + default + "\n"@
}

/// The lines that describe flags, one after the other.
pub open spec fn all_flag_lines(s: Seq<FlagSpec>) -> Seq<char>
    decreases s.len(),
{
    if s.len() == 0 {
        Seq::empty()
    } else {
        all_flag_lines(s.drop_last()) + flag_lines(s.last())
    }
}

/// The description of the flags of the command `set_name`.
pub open spec fn spec_flagset_usage(set_name: Seq<char>, specs: Seq<FlagSpec>) -> Seq<char> {
    "Usage of "@ + set_name + ":\n"@ + all_flag_lines(spec_by_name(specs))
}

fn describe_flag(f: &FlagSpec) -> (r: String)
    ensures
        r@ == flag_lines(*f),
{
    let ty = match f.ty {
        FlagType::Bool => "",
        FlagType::Text => " string",
        FlagType::Slice => " value",
    };
    let mut line = join2("  -", f.name);
    line.push_str(ty);
    if line.as_str().as_bytes().len() <= 4 {
        line.push_str("\t");
    } else {
        line.push_str("\n    \t");
    }
    line.push_str(f.usage);
    proof {
        reveal_strlit("");
    }
    let ghost before = line@;
    match f.default {
        Some(d) => {
            if !d.is_empty() {
                line.push_str(" (default \"");
                line.push_str(d);
                line.push_str("\")");
                assert(line@ =~= before + (" (default \""@ + d@ + "\")"@));
            } else {
                assert(line@ =~= before + ""@);
            }
        },
        None => {
            assert(line@ =~= before + ""@);
        },
    }
    line.push_str("\n");
    line
}

/// Describes the flags of the command `set_name`, in the order of their names.
pub fn flagset_usage(set_name: &str, specs: &[FlagSpec]) -> (r: String)
    ensures
        r@ == spec_flagset_usage(set_name@, specs@),
{
    let mut out = join2("Usage of ", set_name);
    out.push_str(":\n");
    let ghost head = out@;
    let sorted = by_name(specs);
    let mut i: usize = 0;
    assert(sorted@.take(0) =~= Seq::empty());
    assert(head + all_flag_lines(sorted@.take(0)) =~= head);
    while i < sorted.len()
        invariant
            i <= sorted@.len(),
            out@ == head + all_flag_lines(sorted@.take(i as int)),
        decreases sorted@.len() - i,
    {
        let line = describe_flag(&sorted[i]);
        out.push_str(line.as_str());
        proof {
            let t = sorted@.take(i + 1);
            assert(t.drop_last() =~= sorted@.take(i as int));
            assert(out@ =~= head + (all_flag_lines(t.drop_last()) + flag_lines(t.last())));
        }
        i = i + 1;
    }
    assert(sorted@.take(i as int) =~= sorted@);
    out
}

proof fn lemma_lex_trans(a: Seq<u8>, b: Seq<u8>, c: Seq<u8>)
    requires
        !lex_less(b, a),
        !lex_less(c, b),
    ensures
        !lex_less(c, a),
    decreases a.len(),
{
    if a.len() > 0 && b.len() > 0 && c.len() > 0 && a[0] == b[0] && b[0] == c[0] {
        lemma_lex_trans(a.drop_first(), b.drop_first(), c.drop_first());
    }
}

/// No flag stands before one that its name puts first.
pub open spec fn in_name_order(s: Seq<FlagSpec>) -> bool {
    forall|i: int, j: int| 0 <= i < j < s.len() ==> !named_before(#[trigger] s[j], #[trigger] s[i])
}

proof fn lemma_insert_sorted(s: Seq<FlagSpec>, x: FlagSpec)
    requires
        in_name_order(s),
    ensures
        in_name_order(spec_insert(s, x)),
        spec_insert(s, x).to_multiset() == s.to_multiset().insert(x),
        spec_insert(s, x).len() == s.len() + 1,
        forall|i: int|
            0 <= i < spec_insert(s, x).len() ==> (#[trigger] spec_insert(s, x)[i] == x || s.contains(
                spec_insert(s, x)[i],
            )),
    decreases s.len(),
{
    broadcast use vstd::seq_lib::group_to_multiset_ensures;

    let r = spec_insert(s, x);
    if s.len() == 0 || !named_before(x, s.last()) {
        assert forall|i: int, j: int| 0 <= i < j < r.len() implies !named_before(
            #[trigger] r[j],
            #[trigger] r[i],
        ) by {
            if j == s.len() && i < s.len() - 1 {
                assert(!named_before(s[s.len() - 1], s[i]));
                lemma_lex_trans(
                    vstd::utf8::encode_utf8(s[i].name@),
                    vstd::utf8::encode_utf8(s.last().name@),
                    vstd::utf8::encode_utf8(x.name@),
                );
            }
        }
        assert forall|i: int| 0 <= i < r.len() implies (#[trigger] r[i] == x || s.contains(r[i])) by {
            if i < s.len() {
                assert(r[i] == s[i]);
            }
        }
    } else {
        let t = s.drop_last();
        let q = spec_insert(t, x);
        lemma_insert_sorted(t, x);
        crate::exchange::lemma_lex_total(
            vstd::utf8::encode_utf8(x.name@),
            vstd::utf8::encode_utf8(s.last().name@),
        );
        assert forall|i: int, j: int| 0 <= i < j < r.len() implies !named_before(
            #[trigger] r[j],
            #[trigger] r[i],
        ) by {
            if j == q.len() {
                assert(r[j] == s.last());
                assert(r[i] == q[i]);
                if q[i] != x {
                    let m = choose|m: int| 0 <= m < t.len() && t[m] == q[i];
                    assert(!named_before(s[s.len() - 1], s[m]));
                }
            } else {
                assert(r[i] == q[i] && r[j] == q[j]);
            }
        }
        assert forall|i: int| 0 <= i < r.len() implies (#[trigger] r[i] == x || s.contains(r[i])) by {
            if i < q.len() {
                assert(r[i] == q[i]);
                if q[i] != x {
                    let m = choose|m: int| 0 <= m < t.len() && t[m] == q[i];
                    assert(s[m] == q[i]);
                }
            } else {
                assert(r[i] == s[s.len() - 1]);
            }
        }
        assert(s =~= t.push(s.last()));
        assert(s.to_multiset() =~= t.to_multiset().insert(s.last()));
        assert(r.to_multiset() =~= s.to_multiset().insert(x));
    }
}

/// A description names each flag once, in the order of the names.
pub proof fn law_usage_in_order(s: Seq<FlagSpec>)
    ensures
        in_name_order(spec_by_name(s)),
        spec_by_name(s).to_multiset() == s.to_multiset(),
    decreases s.len(),
{
    broadcast use vstd::seq_lib::group_to_multiset_ensures;

    if s.len() > 0 {
        let t = s.drop_last();
        law_usage_in_order(t);
        lemma_insert_sorted(spec_by_name(t), s.last());
        assert(s =~= t.push(s.last()));
    }
}

/// One dash or two make no difference.
pub proof fn law_dashes_agree(name: Seq<char>)
    requires
        name.len() > 0,
        name[0] != '-',
    ensures
        spec_arg("-"@ + name) == spec_arg("--"@ + name),
{
    reveal_strlit("-");
    reveal_strlit("--");
    assert(("-"@ + name).skip(1) =~= name);
    assert(("--"@ + name).skip(2) =~= name);
}

/// A text behind `=` counts as one in the next argument does.
pub proof fn law_value_forms_agree(
    name: Seq<char>,
    value: Seq<char>,
    rest: Seq<Seq<char>>,
    specs: Seq<FlagSpec>,
    seen: Seq<SettingView>,
)
    requires
        name.len() > 0,
        name[0] != '-',
        !name.contains('='),
        0 <= spec_find_flag(specs, name) < specs.len(),
        specs[spec_find_flag(specs, name)].ty != FlagType::Bool,
    ensures
        spec_parse_from(seq!["-"@ + name + "="@ + value] + rest, specs, seen) == spec_parse_from(
            seq!["-"@ + name, value] + rest,
            specs,
            seen,
        ),
{
    reveal_strlit("-");
    reveal_strlit("=");
    let a = "-"@ + name + "="@ + value;
    let b = "-"@ + name;
    let n = name + "="@ + value;
    assert(a.skip(1) =~= n);
    assert(b.skip(1) =~= name);
    assert forall|j: int| 0 <= j < name.len() implies n[j] != '=' by {
        assert(n[j] == name[j]);
        assert(name.contains(name[j]));
    }
    assert(a[1] == name[0] && b[1] == name[0] && n[0] == name[0]);
    assert(name.contains(name[0]));
    lemma_first_index(n, '=', name.len() as int);
    assert forall|j: int| 0 <= j < name.len() implies name[j] != '=' by {
        assert(name.contains(name[j]));
    }
    lemma_first_index(name, '=', name.len() as int);
    assert(n.take(name.len() as int) =~= name);
    assert(n.skip(name.len() as int + 1) =~= value);
    assert(spec_arg(a) == ArgView::Flag(name, Some(value)));
    assert(spec_arg(b) == ArgView::Flag(name, None));
    assert((seq![a] + rest).skip(1) =~= rest);
    assert((seq![b, value] + rest).skip(2) =~= rest);
}

/// What follows `--` is not read: behind arguments that are read without a
/// fault, it makes no difference.
pub proof fn law_dashes_end_flags(
    a: Seq<Seq<char>>,
    b: Seq<Seq<char>>,
    specs: Seq<FlagSpec>,
    seen: Seq<SettingView>,
)
    requires
        spec_parse_from(a, specs, seen) is Ok,
    ensures
        spec_parse_from(a + seq!["--"@] + b, specs, seen) == spec_parse_from(a, specs, seen),
    decreases a.len(),
{
    let all = a + seq!["--"@] + b;
    if a.len() == 0 {
        reveal_strlit("--");
        assert(all[0] == "--"@);
    } else {
        assert(all[0] == a[0]);
        if let ArgView::Flag(name, value) = spec_arg(a[0]) {
            let k = spec_find_flag(specs, name);
            if k < specs.len() {
                if specs[k].ty == FlagType::Bool {
                    let on = match value {
                        Some(v) => spec_bool_value(v)->0,
                        None => true,
                    };
                    let next = seen.push(SettingView { name, value: GivenView::Bool(on) });
                    law_dashes_end_flags(a.skip(1), b, specs, next);
                    assert(all.skip(1) =~= a.skip(1) + seq!["--"@] + b);
                } else if let Some(v) = value {
                    let next = seen.push(
                        SettingView { name, value: given_text(specs[k].ty, v) },
                    );
                    law_dashes_end_flags(a.skip(1), b, specs, next);
                    assert(all.skip(1) =~= a.skip(1) + seq!["--"@] + b);
                } else {
                    assert(all[1] == a[1]);
                    let next = seen.push(
                        SettingView { name, value: given_text(specs[k].ty, a[1]) },
                    );
                    law_dashes_end_flags(a.skip(2), b, specs, next);
                    assert(all.skip(2) =~= a.skip(2) + seq!["--"@] + b);
                }
            }
        }
    }
}

/// The texts of a repeatable flag come in the order in which they were given,
/// and none is lost.
pub proof fn law_slices_in_order(a: Seq<SettingView>, b: Seq<SettingView>, name: Seq<char>)
    ensures
        spec_slice(a + b, name) == spec_slice(a, name) + spec_slice(b, name),
    decreases b.len(),
{
    if b.len() == 0 {
        assert(a + b =~= a);
        assert(spec_slice(a, name) + spec_slice(b, name) =~= spec_slice(a, name));
    } else {
        law_slices_in_order(a, b.drop_last(), name);
        assert((a + b).drop_last() =~= a + b.drop_last());
        assert((a + b).last() == b.last());
        assert(spec_slice(a + b, name) =~= spec_slice(a, name) + spec_slice(b, name));
    }
}

} // verus!
