use vstd::prelude::*;
use crate::syntax::{delimiters_valid, Syntax, WhitespaceHandling};
use crate::text::{chars_of, push_all, push_char, str_eq, string_of_range};

verus! {

/// A configuration error. Any of them aborts the resolution of a `Config`.
#[derive(Debug, Clone, PartialEq, Eq)]
pub enum CompileError {
    /// The configuration text is not well-formed; the payload describes why.
    InvalidConfig(String),
    /// A delimiter of the named syntax is not two characters long.
    DelimiterLength(String),
    /// The start delimiters of the named syntax share neither their first
    /// nor their second character.
    BadDelimiters(String),
    /// The named syntax is defined twice, or redefines the built-in one.
    DuplicateSyntax(String),
    /// The configured default syntax is not defined.
    DefaultSyntaxNotFound(String),
    /// The template path was found neither next to the including file nor
    /// under any search directory.
    TemplateNotFound { path: String, dirs: Vec<String> },
}

/// The `general` section of a configuration document.
#[derive(Debug)]
pub struct General {
    pub dirs: Option<Vec<String>>,
    pub default_syntax: Option<String>,
    pub whitespace: WhitespaceHandling,
}

/// A syntax record of a configuration document: a name and any subset of the
/// six delimiters.
#[derive(Debug)]
pub struct RawSyntax {
    pub name: String,
    pub block_start: Option<String>,
    pub block_end: Option<String>,
    pub expr_start: Option<String>,
    pub expr_end: Option<String>,
    pub comment_start: Option<String>,
    pub comment_end: Option<String>,
}

/// An escaper record of a configuration document.
#[derive(Debug)]
pub struct RawEscaper {
    pub path: String,
    pub extensions: Vec<String>,
}

/// A configuration document as decoded, before validation.
#[derive(Debug)]
pub struct RawConfig {
    pub general: Option<General>,
    pub syntax: Option<Vec<RawSyntax>>,
    pub escaper: Option<Vec<RawEscaper>>,
}

impl RawConfig {
    /// The configuration of a project without a configuration document.
    pub fn empty() -> (r: RawConfig)
        ensures
            r.general is None,
            r.syntax is None,
            r.escaper is None,
    {
        RawConfig { general: None, syntax: None, escaper: None }
    }
}

/// The name of the built-in syntax.
pub open spec fn default_syntax_name() -> Seq<char> {
    "default"@
}

/// A configured delimiter, or the built-in one when none is configured.
pub open spec fn delimiter_or(o: Option<String>, d: Seq<char>) -> Seq<char> {
    match o {
        Some(s) => s@,
        None => d,
    }
}

pub open spec fn raw_block_start(r: RawSyntax) -> Seq<char> { delimiter_or(r.block_start, "{%"@) }
pub open spec fn raw_block_end(r: RawSyntax) -> Seq<char> { delimiter_or(r.block_end, "%}"@) }
pub open spec fn raw_expr_start(r: RawSyntax) -> Seq<char> { delimiter_or(r.expr_start, "{{"@) }
pub open spec fn raw_expr_end(r: RawSyntax) -> Seq<char> { delimiter_or(r.expr_end, "}}"@) }
pub open spec fn raw_comment_start(r: RawSyntax) -> Seq<char> { delimiter_or(r.comment_start, "{#"@) }
pub open spec fn raw_comment_end(r: RawSyntax) -> Seq<char> { delimiter_or(r.comment_end, "#}"@) }

/// All six resolved delimiters of a syntax record are two characters long.
pub open spec fn raw_lengths_ok(r: RawSyntax) -> bool {
    &&& raw_block_start(r).len() == 2 && raw_block_end(r).len() == 2
    &&& raw_expr_start(r).len() == 2 && raw_expr_end(r).len() == 2
    &&& raw_comment_start(r).len() == 2 && raw_comment_end(r).len() == 2
}

/// The resolved delimiters of a syntax record meet the syntax invariant.
pub open spec fn raw_valid(r: RawSyntax) -> bool {
    delimiters_valid(
        raw_block_start(r), raw_block_end(r), raw_expr_start(r),
        raw_expr_end(r), raw_comment_start(r), raw_comment_end(r),
    )
}

/// `s` holds the resolved delimiters of the record `r`.
pub open spec fn resolves_to(r: RawSyntax, s: Syntax) -> bool {
    &&& s.block_start@ == raw_block_start(r)
    &&& s.block_end@ == raw_block_end(r)
    &&& s.expr_start@ == raw_expr_start(r)
    &&& s.expr_end@ == raw_expr_end(r)
    &&& s.comment_start@ == raw_comment_start(r)
    &&& s.comment_end@ == raw_comment_end(r)
}

fn delimiter_or_default(o: &Option<String>, d: &str) -> (r: String)
    ensures
        r@ == delimiter_or(*o, d@),
{
    match o {
        Some(s) => s.clone(),
        None => String::from_str(d),
    }
}

impl Syntax {
    /// Whether this syntax meets the syntax invariant.
    pub fn check(&self) -> (r: bool)
        ensures
            r == self.is_valid(),
    {
        let bs = chars_of(&self.block_start);
        let be = chars_of(&self.block_end);
        let es = chars_of(&self.expr_start);
        let ee = chars_of(&self.expr_end);
        let cs = chars_of(&self.comment_start);
        let ce = chars_of(&self.comment_end);
        bs.len() == 2 && be.len() == 2 && es.len() == 2 && ee.len() == 2 && cs.len() == 2
            && ce.len() == 2 && ((bs[0] == cs[0] && bs[0] == es[0]) || (bs[1] == cs[1] && bs[1]
            == es[1]))
    }

    /// Resolves a syntax record: delimiters it leaves out are the built-in
    /// ones, and the result must meet the syntax invariant.
    pub fn from_raw(raw: &RawSyntax) -> (r: Result<Syntax, CompileError>)
        ensures
            r is Ok <==> raw_valid(*raw),
            r matches Ok(s) ==> resolves_to(*raw, s) && s.is_valid(),
            r matches Err(e) ==> (if raw_lengths_ok(*raw) {
                e == CompileError::BadDelimiters(raw.name)
            } else {
                e == CompileError::DelimiterLength(raw.name)
            }),
    {
        let syntax = Syntax {
            block_start: delimiter_or_default(&raw.block_start, "{%"),
            block_end: delimiter_or_default(&raw.block_end, "%}"),
            expr_start: delimiter_or_default(&raw.expr_start, "{{"),
            expr_end: delimiter_or_default(&raw.expr_end, "}}"),
            comment_start: delimiter_or_default(&raw.comment_start, "{#"),
            comment_end: delimiter_or_default(&raw.comment_end, "#}"),
        };
        let bs = chars_of(&syntax.block_start);
        let be = chars_of(&syntax.block_end);
        let es = chars_of(&syntax.expr_start);
        let ee = chars_of(&syntax.expr_end);
        let cs = chars_of(&syntax.comment_start);
        let ce = chars_of(&syntax.comment_end);
        if bs.len() != 2 || be.len() != 2 || es.len() != 2 || ee.len() != 2 || cs.len() != 2
            || ce.len() != 2 {
            return Err(CompileError::DelimiterLength(raw.name.clone()));
        }
        if !((bs[0] == cs[0] && bs[0] == es[0]) || (bs[1] == cs[1] && bs[1] == es[1])) {
            return Err(CompileError::BadDelimiters(raw.name.clone()));
        }
        Ok(syntax)
    }
}

} // verus!

verus! {

/// `p` resolved against the directory `dir`: an absolute `p` stands alone,
/// otherwise the two are joined by one `/`.
pub open spec fn join_path(dir: Seq<char>, p: Seq<char>) -> Seq<char> {
    if p.len() > 0 && p[0] == '/' {
        p
    } else if dir.len() > 0 && dir.last() == '/' {
        dir + p
    } else {
        dir + seq!['/'] + p
    }
}

/// The index of the last `/` in `s`, or -1 where there is none.
pub open spec fn last_slash(s: Seq<char>) -> int
    decreases s.len(),
{
    if s.len() == 0 {
        -1
    } else if s.last() == '/' {
        s.len() - 1
    } else {
        last_slash(s.drop_last())
    }
}

/// `p` placed in the directory of the file `file`, in place of its name.
pub open spec fn sibling_path(file: Seq<char>, p: Seq<char>) -> Seq<char> {
    file.take(last_slash(file) + 1) + p
}

proof fn lemma_last_slash(s: Seq<char>)
    ensures
        -1 <= last_slash(s) < s.len(),
        last_slash(s) >= 0 ==> s[last_slash(s)] == '/',
        forall|j: int| last_slash(s) < j < s.len() ==> s[j] != '/',
    decreases s.len(),
{
    if s.len() > 0 && s.last() != '/' {
        lemma_last_slash(s.drop_last());
        assert forall|j: int| last_slash(s) < j < s.len() implies s[j] != '/' by {
            if j < s.len() - 1 {
                assert(s.drop_last()[j] == s[j]);
            }
        };
    }
}

/// Joins a relative or absolute path onto a directory.
pub fn join_path_exec(dir: &str, p: &str) -> (r: String)
    ensures
        r@ == join_path(dir@, p@),
{
    let pc = chars_of(p);
    let dc = chars_of(dir);
    if pc.len() > 0 && pc[0] == '/' {
        return String::from_str(p);
    }
    let mut r = String::from_str(dir);
    if !(dc.len() > 0 && dc[dc.len() - 1] == '/') {
        push_char(&mut r, '/');
    }
    push_all(&mut r, pc.as_slice());
    r
}

/// Places `p` in the directory of the file `file`.
pub fn sibling_path_exec(file: &str, p: &str) -> (r: String)
    ensures
        r@ == sibling_path(file@, p@),
{
    let fc = chars_of(file);
    let mut n: usize = fc.len();
    proof { lemma_last_slash(file@); }
    while n > 0 && fc[n - 1] != '/'
        invariant
            n <= fc@.len(),
            fc@ == file@,
            last_slash(file@) < n,
            last_slash(file@) >= 0 ==> file@[last_slash(file@)] == '/',
            forall|j: int| n <= j < fc@.len() ==> fc@[j] != '/',
        decreases n,
    {
        n = n - 1;
    }
    assert(last_slash(file@) + 1 == n) by {
        lemma_last_slash(file@);
        if last_slash(file@) + 1 < n {
            assert(fc@[n - 1] != '/');
        }
    };
    let mut r = string_of_range(fc.as_slice(), 0, n);
    push_all(&mut r, chars_of(p).as_slice());
    assert(fc@.subrange(0, n as int) =~= file@.take(n as int));
    r
}

} // verus!

verus! {

/// The escaper paths and their extensions as plain sequences.
pub type EscaperTable = Seq<(Seq<Seq<char>>, Seq<char>)>;

/// The escapers that every configuration ends with.
pub open spec fn builtin_escapers() -> EscaperTable {
    seq![
        (seq!["html"@, "htm"@, "xml"@], "::askama::Html"@),
        (seq!["md"@, "none"@, "txt"@, "yml"@, ""@], "::askama::Text"@),
        (seq!["j2"@, "jinja"@, "jinja2"@], "::askama::Html"@),
    ]
}

pub open spec fn strings_view(v: Seq<String>) -> Seq<Seq<char>> {
    v.map_values(|s: String| s@)
}

pub open spec fn raw_escaper_view(e: RawEscaper) -> (Seq<Seq<char>>, Seq<char>) {
    (strings_view(e.extensions@), e.path@)
}

pub open spec fn raw_syntaxes(raw: RawConfig) -> Seq<RawSyntax> {
    match raw.syntax {
        Some(v) => v@,
        None => seq![],
    }
}

pub open spec fn raw_escapers(raw: RawConfig) -> Seq<RawEscaper> {
    match raw.escaper {
        Some(v) => v@,
        None => seq![],
    }
}

/// The escaper table of a configuration: its own records in order, then the
/// built-in ones.
pub open spec fn escapers_of(raw: RawConfig) -> EscaperTable {
    raw_escapers(raw).map_values(|e: RawEscaper| raw_escaper_view(e)) + builtin_escapers()
}

/// The search directories of a configuration, resolved against `root`.
pub open spec fn dirs_of(root: Seq<char>, raw: RawConfig) -> Seq<Seq<char>> {
    match raw.general {
        Some(g) => match g.dirs {
            Some(v) => strings_view(v@).map_values(|d: Seq<char>| join_path(root, d)),
            None => seq![join_path(root, "templates"@)],
        },
        None => seq![join_path(root, "templates"@)],
    }
}

/// The name of the default syntax of a configuration.
pub open spec fn default_name_of(raw: RawConfig) -> Seq<char> {
    match raw.general {
        Some(g) => match g.default_syntax {
            Some(n) => n@,
            None => default_syntax_name(),
        },
        None => default_syntax_name(),
    }
}

/// The whitespace handling of a configuration.
pub open spec fn whitespace_of(raw: RawConfig) -> WhitespaceHandling {
    match raw.general {
        Some(g) => g.whitespace,
        None => WhitespaceHandling::Preserve,
    }
}

/// The `i`-th syntax record is valid and its name is new.
pub open spec fn syntax_record_ok(rs: Seq<RawSyntax>, i: int) -> bool {
    &&& raw_valid(rs[i])
    &&& rs[i].name@ != default_syntax_name()
    &&& forall|j: int| 0 <= j < i ==> rs[j].name@ != rs[i].name@
}

pub open spec fn syntax_records_ok(rs: Seq<RawSyntax>, n: int) -> bool {
    forall|i: int| 0 <= i < n ==> syntax_record_ok(rs, i)
}

/// The error that a syntax record that is not `syntax_record_ok` gives.
pub open spec fn syntax_record_error(r: RawSyntax) -> CompileError {
    if !raw_lengths_ok(r) {
        CompileError::DelimiterLength(r.name)
    } else if !raw_valid(r) {
        CompileError::BadDelimiters(r.name)
    } else {
        CompileError::DuplicateSyntax(r.name)
    }
}

/// `name` is the built-in syntax or one of the records.
pub open spec fn syntax_defined(rs: Seq<RawSyntax>, name: Seq<char>) -> bool {
    name == default_syntax_name() || exists|i: int| 0 <= i < rs.len() && rs[i].name@ == name
}

/// The configuration resolves without error.
pub open spec fn raw_config_ok(raw: RawConfig) -> bool {
    &&& syntax_records_ok(raw_syntaxes(raw), raw_syntaxes(raw).len() as int)
    &&& syntax_defined(raw_syntaxes(raw), default_name_of(raw))
}

/// The escaper of the first entry of `t`, from index `i` on, whose extensions
/// hold `ext`.
pub open spec fn escaper_from(t: EscaperTable, ext: Seq<char>, i: int) -> Option<Seq<char>>
    decreases t.len() - i,
{
    if i < 0 || i >= t.len() {
        None
    } else if t[i].0.contains(ext) {
        Some(t[i].1)
    } else {
        escaper_from(t, ext, i + 1)
    }
}

/// The escaper that the table `t` gives for the extension `ext`.
pub open spec fn escaper_for(t: EscaperTable, ext: Seq<char>) -> Option<Seq<char>> {
    escaper_from(t, ext, 0)
}

/// Resolved project configuration. It has no mutation API.
#[derive(Debug)]
pub struct Config {
    dirs: Vec<String>,
    syntaxes: Vec<(String, Syntax)>,
    default_syntax: String,
    escapers: Vec<(Vec<String>, String)>,
    whitespace: WhitespaceHandling,
}

impl Config {
    /// The search directories, in order.
    pub closed spec fn dirs_view(&self) -> Seq<Seq<char>> {
        strings_view(self.dirs@)
    }

    /// The names of the defined syntaxes, the built-in one first.
    pub closed spec fn syntax_names(&self) -> Seq<Seq<char>> {
        self.syntaxes@.map_values(|p: (String, Syntax)| p.0@)
    }

    /// The defined syntaxes, in the order of `syntax_names`.
    pub closed spec fn syntax_list(&self) -> Seq<Syntax> {
        self.syntaxes@.map_values(|p: (String, Syntax)| p.1)
    }

    /// The name of the default syntax.
    pub closed spec fn default_syntax_view(&self) -> Seq<char> {
        self.default_syntax@
    }

    /// The escaper table, in lookup order.
    pub closed spec fn escapers_view(&self) -> EscaperTable {
        self.escapers@.map_values(
            |p: (Vec<String>, String)| (strings_view(p.0@), p.1@),
        )
    }

    /// The default whitespace handling.
    pub closed spec fn whitespace_view(&self) -> WhitespaceHandling {
        self.whitespace
    }

    /// The configuration's invariant: the built-in syntax comes first, every
    /// syntax meets the syntax invariant, names are unique and the default
    /// syntax is among them.
    pub closed spec fn wf(&self) -> bool {
        &&& self.syntaxes@.len() > 0
        &&& self.syntaxes@[0].0@ == default_syntax_name()
        &&& self.syntaxes@[0].1.is_builtin()
        &&& forall|i: int| 0 <= i < self.syntaxes@.len() ==> #[trigger] self.syntaxes@[i].1.is_valid()
        &&& forall|i: int, j: int| 0 <= i < j < self.syntaxes@.len()
            ==> #[trigger] self.syntaxes@[i].0@ != #[trigger] self.syntaxes@[j].0@
        &&& self.syntax_names().contains(self.default_syntax@)
    }
}

} // verus!

verus! {

proof fn lemma_strings_push(s: Seq<String>, x: String)
    ensures
        strings_view(s.push(x)) == strings_view(s).push(x@),
{
    assert(strings_view(s.push(x)) =~= strings_view(s).push(x@));
}

/// The index of the syntax named `name` in `syntaxes`, if there is one.
fn position_of(syntaxes: &Vec<(String, Syntax)>, name: &str) -> (r: Option<usize>)
    ensures
        r matches Some(i) ==> i < syntaxes@.len() && syntaxes@[i as int].0@ == name@,
        r is None ==> forall|i: int| 0 <= i < syntaxes@.len() ==> syntaxes@[i].0@ != name@,
{
    let mut i: usize = 0;
    while i < syntaxes.len()
        invariant
            i <= syntaxes@.len(),
            forall|j: int| 0 <= j < i ==> syntaxes@[j].0@ != name@,
        decreases syntaxes@.len() - i,
    {
        if str_eq(syntaxes[i].0.as_str(), name) {
            return Some(i);
        }
        i = i + 1;
    }
    None
}

fn clone_strings(v: &Vec<String>) -> (r: Vec<String>)
    ensures
        strings_view(r@) == strings_view(v@),
{
    let mut r: Vec<String> = Vec::new();
    let mut i: usize = 0;
    while i < v.len()
        invariant
            i <= v@.len(),
            strings_view(r@) == strings_view(v@.take(i as int)),
        decreases v@.len() - i,
    {
        proof {
            lemma_strings_push(r@, v@[i as int]);
            lemma_strings_push(v@.take(i as int), v@[i as int]);
            assert(v@.take(i + 1) =~= v@.take(i as int).push(v@[i as int]));
        }
        r.push(v[i].clone());
        i = i + 1;
    }
    assert(v@.take(v@.len() as int) =~= v@);
    r
}

fn strings(a: &str, b: &str, c: &str) -> (r: Vec<String>)
    ensures
        strings_view(r@) == seq![a@, b@, c@],
{
    let r = vec![String::from_str(a), String::from_str(b), String::from_str(c)];
    assert(strings_view(r@) =~= seq![a@, b@, c@]);
    r
}

fn builtin_escaper_table() -> (r: Vec<(Vec<String>, String)>)
    ensures
        r@.map_values(|p: (Vec<String>, String)| (strings_view(p.0@), p.1@)) == builtin_escapers(),
{
    let mut text = strings("md", "none", "txt");
    let ghost t0 = text@;
    let yml = String::from_str("yml");
    proof { lemma_strings_push(t0, yml); }
    text.push(yml);
    let ghost t1 = text@;
    let empty = String::from_str("");
    proof { lemma_strings_push(t1, empty); }
    text.push(empty);
    assert(strings_view(text@) =~= seq!["md"@, "none"@, "txt"@, "yml"@, ""@]);
    let r = vec![
        (strings("html", "htm", "xml"), String::from_str("::askama::Html")),
        (text, String::from_str("::askama::Text")),
        (strings("j2", "jinja", "jinja2"), String::from_str("::askama::Html")),
    ];
    assert(r@.map_values(|p: (Vec<String>, String)| (strings_view(p.0@), p.1@)) =~= builtin_escapers());
    r
}

fn resolve_dirs(root: &str, raw: &RawConfig) -> (r: Vec<String>)
    ensures
        strings_view(r@) == dirs_of(root@, *raw),
{
    let configured = match &raw.general {
        Some(g) => match &g.dirs {
            Some(v) => Some(v),
            None => None,
        },
        None => None,
    };
    match configured {
        None => {
            let r = vec![join_path_exec(root, "templates")];
            assert(strings_view(r@) =~= dirs_of(root@, *raw));
            r
        },
        Some(v) => {
            let mut r: Vec<String> = Vec::new();
            let mut i: usize = 0;
            while i < v.len()
                invariant
                    i <= v@.len(),
                    strings_view(r@) == strings_view(v@.take(i as int)).map_values(
                        |d: Seq<char>| join_path(root@, d),
                    ),
                decreases v@.len() - i,
            {
                let d = join_path_exec(root, v[i].as_str());
                proof {
                    lemma_strings_push(r@, d);
                    lemma_strings_push(v@.take(i as int), v@[i as int]);
                    assert(v@.take(i + 1) =~= v@.take(i as int).push(v@[i as int]));
                    assert(strings_view(v@.take(i + 1)).map_values(|d: Seq<char>| join_path(root@, d))
                        =~= strings_view(v@.take(i as int)).map_values(|d: Seq<char>| join_path(root@, d)).push(join_path(root@, v@[i as int]@)));
                }
                r.push(d);
                i = i + 1;
            }
            assert(v@.take(v@.len() as int) =~= v@);
            assert(strings_view(r@) =~= dirs_of(root@, *raw));
            r
        },
    }
}

} // verus!

verus! {

pub open spec fn raw_names(rs: Seq<RawSyntax>) -> Seq<Seq<char>> {
    rs.map_values(|s: RawSyntax| s.name@)
}

fn user_escapers(raw: &RawConfig) -> (r: Vec<(Vec<String>, String)>)
    ensures
        r@.map_values(|p: (Vec<String>, String)| (strings_view(p.0@), p.1@))
            == raw_escapers(*raw).map_values(|e: RawEscaper| raw_escaper_view(e)),
{
    let mut r: Vec<(Vec<String>, String)> = Vec::new();
    match &raw.escaper {
        None => {
            assert(r@.map_values(|p: (Vec<String>, String)| (strings_view(p.0@), p.1@))
                =~= raw_escapers(*raw).map_values(|e: RawEscaper| raw_escaper_view(e)));
        },
        Some(v) => {
            let mut i: usize = 0;
            while i < v.len()
                invariant
                    i <= v@.len(),
                    raw_escapers(*raw) == v@,
                    r@.map_values(|p: (Vec<String>, String)| (strings_view(p.0@), p.1@))
                        == v@.take(i as int).map_values(|e: RawEscaper| raw_escaper_view(e)),
                decreases v@.len() - i,
            {
                let entry = (clone_strings(&v[i].extensions), v[i].path.clone());
                let ghost before = r@;
                r.push(entry);
                proof {
                    assert(r@ == before.push(entry));
                    assert(v@.take(i + 1) =~= v@.take(i as int).push(v@[i as int]));
                    assert(r@.map_values(|p: (Vec<String>, String)| (strings_view(p.0@), p.1@))
                        =~= before.map_values(|p: (Vec<String>, String)| (strings_view(p.0@), p.1@)).push(
                            (strings_view(entry.0@), entry.1@)));
                    assert(v@.take(i + 1).map_values(|e: RawEscaper| raw_escaper_view(e))
                        =~= v@.take(i as int).map_values(|e: RawEscaper| raw_escaper_view(e)).push(
                            raw_escaper_view(v@[i as int])));
                }
                i = i + 1;
            }
            assert(v@.take(v@.len() as int) =~= v@);
        },
    }
    r
}

impl Config {
    /// Validates a decoded configuration document and merges it with the
    /// built-in settings. Search directories are resolved against `root`.
    pub fn from_raw(root: &str, raw: &RawConfig) -> (r: Result<Config, CompileError>)
        ensures
            r is Ok <==> raw_config_ok(*raw),
            r matches Ok(c) ==> c.wf(),
            r matches Ok(c) ==> c.syntax_names()[0] == default_syntax_name() && c.syntax_list()[0].is_builtin(),
            r matches Ok(c) ==> c.dirs_view() == dirs_of(root@, *raw),
            r matches Ok(c) ==> c.default_syntax_view() == default_name_of(*raw),
            r matches Ok(c) ==> c.whitespace_view() == whitespace_of(*raw),
            r matches Ok(c) ==> c.escapers_view() == escapers_of(*raw),
            r matches Ok(c) ==> c.syntax_names() == seq![default_syntax_name()] + raw_names(
                raw_syntaxes(*raw),
            ),
            r matches Ok(c) ==> forall|i: int|
                0 <= i < raw_syntaxes(*raw).len() ==> resolves_to(
                    #[trigger] raw_syntaxes(*raw)[i],
                    c.syntax_list()[i + 1],
                ),
            r matches Err(e) ==> (exists|i: int|
                0 <= i < raw_syntaxes(*raw).len() && syntax_records_ok(raw_syntaxes(*raw), i)
                    && !syntax_record_ok(raw_syntaxes(*raw), i) && e == syntax_record_error(
                    raw_syntaxes(*raw)[i],
                )) || (syntax_records_ok(raw_syntaxes(*raw), raw_syntaxes(*raw).len() as int)
                && !syntax_defined(raw_syntaxes(*raw), default_name_of(*raw))
                && (e matches CompileError::DefaultSyntaxNotFound(n) && n@ == default_name_of(*raw))),
    {
        let dirs = resolve_dirs(root, raw);
        let (default_syntax, whitespace) = match &raw.general {
            Some(g) => (
                match &g.default_syntax {
                    Some(n) => n.clone(),
                    None => String::from_str("default"),
                },
                g.whitespace,
            ),
            None => (String::from_str("default"), WhitespaceHandling::Preserve),
        };
        let mut syntaxes: Vec<(String, Syntax)> = vec![(String::from_str("default"), Syntax::default())];
        let ghost rs = raw_syntaxes(*raw);
        assert(syntaxes@.map_values(|p: (String, Syntax)| p.0@) =~= seq![default_syntax_name()] + raw_names(rs.take(0)));
        if let Some(list) = &raw.syntax {
            let mut i: usize = 0;
            while i < list.len()
                invariant
                    rs == list@,
                    rs == raw_syntaxes(*raw),
                    i <= list@.len(),
                    syntax_records_ok(rs, i as int),
                    syntaxes@.len() == i + 1,
                    syntaxes@.map_values(|p: (String, Syntax)| p.0@) == seq![default_syntax_name()] + raw_names(rs.take(i as int)),
                    syntaxes@[0].1.is_builtin(),
                    forall|k: int| 0 <= k < syntaxes@.len() ==> #[trigger] syntaxes@[k].1.is_valid(),
                    forall|k: int| 0 <= k < i ==> resolves_to(#[trigger] rs[k], syntaxes@[k + 1].1),
                decreases list@.len() - i,
            {
                let s = match Syntax::from_raw(&list[i]) {
                    Ok(s) => s,
                    Err(e) => {
                        proof {
                            assert(rs[i as int] == list@[i as int]);
                            assert(!syntax_record_ok(rs, i as int));
                            assert(e == syntax_record_error(rs[i as int]));
                            assert(!syntax_records_ok(rs, rs.len() as int));
                        }
                        return Err(e);
                    },
                };
                let found = position_of(&syntaxes, list[i].name.as_str());
                let ghost names = syntaxes@.map_values(|p: (String, Syntax)| p.0@);
                if let Some(k) = found {
                    proof {
                        assert(names[k as int] == list@[i as int].name@);
                        if k > 0 {
                            assert(names[k as int] == rs[k - 1].name@);
                        }
                        assert(!syntax_record_ok(rs, i as int));
                        assert(rs[i as int] == list@[i as int]);
                        assert(raw_valid(rs[i as int]));
                        assert(!syntax_records_ok(rs, rs.len() as int));
                    }
                    return Err(CompileError::DuplicateSyntax(list[i].name.clone()));
                }
                proof {
                    assert(names[0] != list@[i as int].name@);
                    assert forall|j: int| 0 <= j < i implies rs[j].name@ != rs[i as int].name@ by {
                        assert(names[j + 1] == rs[j].name@);
                    };
                    assert(syntax_record_ok(rs, i as int));
                }
                let ghost before = syntaxes@;
                let entry = (list[i].name.clone(), s);
                syntaxes.push(entry);
                proof {
                    assert(syntaxes@ == before.push(entry));
                    assert(syntaxes@.map_values(|p: (String, Syntax)| p.0@)
                        =~= before.map_values(|p: (String, Syntax)| p.0@).push(entry.0@));
                    assert(rs.take(i + 1) =~= rs.take(i as int).push(rs[i as int]));
                    assert(raw_names(rs.take(i + 1)) =~= raw_names(rs.take(i as int)).push(rs[i as int].name@));
                    assert(syntaxes@.map_values(|p: (String, Syntax)| p.0@) =~= seq![default_syntax_name()] + raw_names(rs.take(i + 1)));
                }
                i = i + 1;
            }
            assert(rs.take(list@.len() as int) =~= rs);
        } else {
            assert(rs.take(0) =~= rs);
        }
        let ghost names = syntaxes@.map_values(|p: (String, Syntax)| p.0@);
        match position_of(&syntaxes, default_syntax.as_str()) {
            None => {
                proof {
                    assert(names[0] == default_syntax_name());
                    if syntax_defined(rs, default_syntax@) {
                        if default_syntax@ != default_syntax_name() {
                            let k = choose|k: int| 0 <= k < rs.len() && rs[k].name@ == default_syntax@;
                            assert(names[k + 1] == rs[k].name@);
                        }
                    }
                }
                return Err(CompileError::DefaultSyntaxNotFound(default_syntax));
            },
            Some(k) => {
                proof {
                    if k > 0 {
                        assert(names[k as int] == rs[k - 1].name@);
                    }
                    assert(names[k as int] == default_syntax@);
                    assert(names.contains(default_syntax@));
                }
            },
        }
        let mut escapers = user_escapers(raw);
        let ghost user = escapers@;
        let mut tail = builtin_escaper_table();
        let ghost tail_v = tail@;
        escapers.append(&mut tail);
        proof {
            assert(escapers@ == user + tail_v);
            assert(escapers@.map_values(|p: (Vec<String>, String)| (strings_view(p.0@), p.1@))
                =~= user.map_values(|p: (Vec<String>, String)| (strings_view(p.0@), p.1@))
                + tail_v.map_values(|p: (Vec<String>, String)| (strings_view(p.0@), p.1@)));
        }
        let c = Config { dirs, syntaxes, default_syntax, escapers, whitespace };
        proof {
            assert forall|a: int, b: int| 0 <= a < b < c.syntaxes@.len()
                implies #[trigger] c.syntaxes@[a].0@ != #[trigger] c.syntaxes@[b].0@ by {
                assert(names[a] == c.syntaxes@[a].0@);
                assert(names[b] == c.syntaxes@[b].0@);
                assert(names[b] == rs[b - 1].name@);
                assert(syntax_record_ok(rs, b - 1));
                if a > 0 {
                    assert(names[a] == rs[a - 1].name@);
                }
            };
            assert(c.syntax_names() == names);
            assert(c.syntaxes@.len() > 0);
            assert(names[0] == default_syntax_name());
            assert(c.syntaxes@[0].0@ == default_syntax_name());
            assert(c.syntaxes@[0].1.is_builtin());
            assert(forall|i: int| 0 <= i < c.syntaxes@.len() ==> #[trigger] c.syntaxes@[i].1.is_valid());
            assert(c.syntax_names().contains(c.default_syntax@));
        }
        Ok(c)
    }
}

} // verus!

verus! {

/// The places where `path` is looked for, in order: next to the including
/// file `start_at` if there is one, then under each search directory.
pub open spec fn template_candidates(
    dirs: Seq<Seq<char>>,
    path: Seq<char>,
    start_at: Option<Seq<char>>,
) -> Seq<Seq<char>> {
    let rooted = dirs.map_values(|d: Seq<char>| join_path(d, path));
    match start_at {
        Some(f) => seq![sibling_path(f, path)] + rooted,
        None => rooted,
    }
}

/// The index of the first `true` in `found`, if there is one.
pub open spec fn first_found(found: Seq<bool>) -> Option<int> {
    if exists|i: int| 0 <= i < found.len() && found[i] {
        Some(choose|i: int| 0 <= i < found.len() && found[i] && forall|j: int| 0 <= j < i ==> !found[j])
    } else {
        None
    }
}

pub open spec fn opt_view(o: Option<&str>) -> Option<Seq<char>> {
    match o {
        Some(s) => Some(s@),
        None => None,
    }
}

impl Config {
    /// The search directories, in lookup order.
    pub fn dirs(&self) -> (r: &Vec<String>)
        ensures
            strings_view(r@) == self.dirs_view(),
    {
        &self.dirs
    }

    /// The name of the default syntax.
    pub fn default_syntax(&self) -> (r: &str)
        ensures
            r@ == self.default_syntax_view(),
    {
        self.default_syntax.as_str()
    }

    /// The escaper table, in lookup order.
    pub fn escapers(&self) -> (r: &Vec<(Vec<String>, String)>)
        ensures
            r@.map_values(|p: (Vec<String>, String)| (strings_view(p.0@), p.1@))
                == self.escapers_view(),
    {
        &self.escapers
    }

    /// The syntax defined under `name`, if any.
    pub fn syntax(&self, name: &str) -> (r: Option<&Syntax>)
        ensures
            r is Some <==> self.syntax_names().contains(name@),
            r matches Some(s) ==> exists|i: int|
                0 <= i < self.syntax_names().len() && self.syntax_names()[i] == name@
                    && self.syntax_list()[i] == *s,
    {
        match position_of(&self.syntaxes, name) {
            Some(i) => {
                proof {
                    assert(self.syntax_names()[i as int] == name@);
                    assert(self.syntax_list()[i as int] == self.syntaxes@[i as int].1);
                }
                Some(&self.syntaxes[i].1)
            },
            None => {
                proof {
                    if self.syntax_names().contains(name@) {
                        let k = choose|k: int| 0 <= k < self.syntax_names().len() && self.syntax_names()[k] == name@;
                        assert(self.syntaxes@[k].0@ == name@);
                    }
                }
                None
            },
        }
    }

    /// The syntax that templates use unless they name another one.
    pub fn syntax_default(&self) -> (r: &Syntax)
        requires
            self.wf(),
        ensures
            r.is_valid(),
            exists|i: int|
                0 <= i < self.syntax_names().len() && self.syntax_names()[i]
                    == self.default_syntax_view() && self.syntax_list()[i] == *r,
    {
        let r = self.syntax(self.default_syntax.as_str());
        proof {
            assert(self.syntax_names().contains(self.default_syntax@));
        }
        match r {
            Some(s) => {
                proof {
                    let i = choose|i: int| 0 <= i < self.syntax_names().len()
                        && self.syntax_names()[i] == self.default_syntax@ && self.syntax_list()[i] == *s;
                    assert(self.syntaxes@[i].1.is_valid());
                }
                s
            },
            None => {
                proof { assert(false); }
                &self.syntaxes[0].1
            },
        }
    }

    /// Finds the escaper to use for the extension `name`: that of the first
    /// table entry whose extensions hold it.
    pub fn find_escaper(&self, name: &str) -> (r: Option<String>)
        ensures
            match r {
                Some(e) => escaper_for(self.escapers_view(), name@) == Some(e@),
                None => escaper_for(self.escapers_view(), name@) is None,
            },
    {
        let ghost t = self.escapers_view();
        let mut i: usize = 0;
        while i < self.escapers.len()
            invariant
                i <= self.escapers@.len(),
                t == self.escapers_view(),
                t.len() == self.escapers@.len(),
                escaper_for(t, name@) == escaper_from(t, name@, i as int),
            decreases self.escapers@.len() - i,
        {
            let exts = &self.escapers[i].0;
            let mut j: usize = 0;
            let mut hit = false;
            while j < exts.len() && !hit
                invariant
                    j <= exts@.len(),
                    hit ==> strings_view(exts@).contains(name@),
                    !hit ==> forall|k: int| 0 <= k < j ==> exts@[k]@ != name@,
                decreases exts@.len() - j, if hit { 0int } else { 1int },
            {
                if str_eq(exts[j].as_str(), name) {
                    hit = true;
                    assert(strings_view(exts@)[j as int] == name@);
                } else {
                    j = j + 1;
                }
            }
            assert(t[i as int].0 == strings_view(exts@));
            if hit {
                return Some(self.escapers[i].1.clone());
            }
            assert(!strings_view(exts@).contains(name@)) by {
                if strings_view(exts@).contains(name@) {
                    let k = choose|k: int| 0 <= k < strings_view(exts@).len() && strings_view(exts@)[k] == name@;
                    assert(exts@[k]@ == name@);
                }
            };
            i = i + 1;
        }
        None
    }

    /// The whitespace handling to use where a tag does not say.
    pub fn whitespace(&self) -> (r: WhitespaceHandling)
        ensures
            r == self.whitespace_view(),
    {
        self.whitespace
    }

    /// The places where `path` is looked for, in lookup order.
    pub fn template_candidates(&self, path: &str, start_at: Option<&str>) -> (r: Vec<String>)
        ensures
            strings_view(r@) == template_candidates(self.dirs_view(), path@, opt_view(start_at)),
    {
        let mut r: Vec<String> = Vec::new();
        if let Some(f) = start_at {
            r.push(sibling_path_exec(f, path));
        }
        let ghost first = r@;
        let mut i: usize = 0;
        while i < self.dirs.len()
            invariant
                i <= self.dirs@.len(),
                strings_view(r@) == strings_view(first) + strings_view(self.dirs@.take(i as int)).map_values(
                    |d: Seq<char>| join_path(d, path@),
                ),
            decreases self.dirs@.len() - i,
        {
            let d = join_path_exec(self.dirs[i].as_str(), path);
            proof {
                lemma_strings_push(r@, d);
                lemma_strings_push(self.dirs@.take(i as int), self.dirs@[i as int]);
                assert(self.dirs@.take(i + 1) =~= self.dirs@.take(i as int).push(self.dirs@[i as int]));
                assert(strings_view(self.dirs@.take(i + 1)).map_values(|d: Seq<char>| join_path(d, path@))
                    =~= strings_view(self.dirs@.take(i as int)).map_values(|d: Seq<char>| join_path(d, path@)).push(
                        join_path(self.dirs@[i as int]@, path@)));
            }
            r.push(d);
            i = i + 1;
        }
        proof {
            assert(self.dirs@.take(self.dirs@.len() as int) =~= self.dirs@);
            match start_at {
                Some(f) => assert(strings_view(first) =~= seq![sibling_path(f@, path@)]),
                None => assert(strings_view(first) =~= Seq::<Seq<char>>::empty()),
            }
            assert(strings_view(r@) =~= template_candidates(self.dirs_view(), path@, opt_view(start_at)));
        }
        r
    }

    /// Picks the template file for `path`: the first of `template_candidates`
    /// whose entry in `found` is `true` (the file exists). Fails, naming the
    /// path and the search directories, where none exists.
    pub fn find_template(&self, path: &str, start_at: Option<&str>, found: &Vec<bool>) -> (r:
        Result<String, CompileError>)
        requires
            found@.len() == template_candidates(self.dirs_view(), path@, opt_view(start_at)).len(),
        ensures
            match first_found(found@) {
                Some(i) => r matches Ok(p) && p@ == template_candidates(
                    self.dirs_view(),
                    path@,
                    opt_view(start_at),
                )[i],
                None => r matches Err(CompileError::TemplateNotFound { path: p, dirs: d })
                    && p@ == path@ && strings_view(d@) == self.dirs_view(),
            },
    {
        let candidates = self.template_candidates(path, start_at);
        let mut i: usize = 0;
        while i < found.len()
            invariant
                i <= found@.len(),
                found@.len() == candidates@.len(),
                strings_view(candidates@) == template_candidates(self.dirs_view(), path@, opt_view(start_at)),
                forall|j: int| 0 <= j < i ==> !found@[j],
            decreases found@.len() - i,
        {
            if found[i] {
                let ghost k = i as int;
                proof {
                    assert(exists|j: int| 0 <= j < found@.len() && found@[j]) by { assert(found@[k]); };
                    let c = choose|j: int| 0 <= j < found@.len() && found@[j] && forall|m: int| 0 <= m < j ==> !found@[m];
                    if c < k { assert(!found@[c]); }
                    if c > k { assert(!found@[k]); }
                    assert(first_found(found@) == Some(k));
                    assert(strings_view(candidates@)[k] == candidates@[k]@);
                }
                return Ok(candidates[i].clone());
            }
            i = i + 1;
        }
        proof {
            assert(!exists|j: int| 0 <= j < found@.len() && found@[j]);
            assert(first_found(found@) is None);
        }
        let dirs = clone_strings(&self.dirs);
        Err(CompileError::TemplateNotFound { path: String::from_str(path), dirs })
    }
}

} // verus!

verus! {

/// Every syntax of a resolved configuration has six two-character
/// delimiters, and its three start delimiters share their first or their
/// second character.
pub proof fn config_syntaxes_are_valid(c: &Config)
    requires
        c.wf(),
    ensures
        forall|i: int| 0 <= i < c.syntax_list().len() ==> (#[trigger] c.syntax_list()[i]).is_valid(),
{
    assert forall|i: int| 0 <= i < c.syntax_list().len() implies (#[trigger] c.syntax_list()[i]).is_valid() by {
        assert(c.syntax_list()[i] == c.syntaxes@[i].1);
    };
}

/// A configuration with a syntax record that breaks the syntax invariant
/// does not resolve.
pub proof fn invalid_syntax_rejected(raw: RawConfig, i: int)
    requires
        0 <= i < raw_syntaxes(raw).len(),
        !raw_valid(raw_syntaxes(raw)[i]),
    ensures
        !raw_config_ok(raw),
{
    assert(!syntax_record_ok(raw_syntaxes(raw), i));
}

/// A template found next to the including file wins over every search
/// directory: when that candidate exists, it is the one chosen.
pub proof fn sibling_takes_precedence(dirs: Seq<Seq<char>>, path: Seq<char>, file: Seq<char>, found: Seq<bool>)
    requires
        found.len() == template_candidates(dirs, path, Some(file)).len(),
        found[0],
    ensures
        first_found(found) == Some(0int),
        template_candidates(dirs, path, Some(file))[0] == sibling_path(file, path),
{
    assert(exists|i: int| 0 <= i < found.len() && found[i]) by { assert(found[0]); };
    let c = choose|i: int| 0 <= i < found.len() && found[i] && forall|j: int| 0 <= j < i ==> !found[j];
    if c > 0 {
        assert(!found[0]);
    }
}

} // verus!
