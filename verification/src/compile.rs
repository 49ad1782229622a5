use vstd::prelude::*;
use crate::text::{
    chars_of, find_in, first_occurrence, occurs_at, joined, lemma_line_end, lemma_line_end_is, line_end,
    push_char, str_eq, string_of_range, to_lowercase, trim, trimmed, unicode_lowercase,
};
use crate::number::{i64_to_string, signed_decimal};

verus! {

// ---------------------------------------------------------------------------
// Languages
// ---------------------------------------------------------------------------

/// The supported languages: the tag written after the opening fence, Godbolt's language id and
/// the compiler used for it.
pub open spec fn languages() -> Seq<(Seq<char>, Seq<char>, Seq<char>)> {
    seq![
        ("c"@, "c"@, "cg141"@),
        ("c++"@, "c++"@, "g141"@),
        ("cpp"@, "c++"@, "g141"@),
        ("rust"@, "rust"@, "r1820"@),
        ("go"@, "go"@, "gl1221"@),
        ("python"@, "python"@, "python312"@),
        ("java"@, "java"@, "java2100"@),
        ("haskell"@, "haskell"@, "ghc961"@),
        ("d"@, "d"@, "ldc1_37_0"@),
        ("pascal"@, "pascal"@, "fpc331"@),
        ("fortran"@, "fortran"@, "gfortran141"@),
        ("ada"@, "ada"@, "gnat141"@),
        ("nim"@, "nim"@, "nim2020"@),
        ("zig"@, "zig"@, "z0130"@),
        ("assembly"@, "assembly"@, "nasm2_16_01"@),
        ("asm"@, "assembly"@, "nasm2_16_01"@),
        ("swift"@, "swift"@, "swift60"@),
        ("kotlin"@, "kotlin"@, "kotlinc2020"@),
        ("csharp"@, "csharp"@, "dotnet9csc"@),
        ("c#"@, "csharp"@, "dotnet9csc"@),
        ("fsharp"@, "fsharp"@, "dotnet9fsharpc"@),
        ("f#"@, "fsharp"@, "dotnet9fsharpc"@),
    ]
}

/// The table of supported languages.
fn language_table() -> (t: Vec<(&'static str, &'static str, &'static str)>)
    ensures
        t@.map_values(|e: (&'static str, &'static str, &'static str)| (e.0@, e.1@, e.2@))
            == languages(),
{
    let t: Vec<(&'static str, &'static str, &'static str)> = vec![
        ("c", "c", "cg141"),
        ("c++", "c++", "g141"),
        ("cpp", "c++", "g141"),
        ("rust", "rust", "r1820"),
        ("go", "go", "gl1221"),
        ("python", "python", "python312"),
        ("java", "java", "java2100"),
        ("haskell", "haskell", "ghc961"),
        ("d", "d", "ldc1_37_0"),
        ("pascal", "pascal", "fpc331"),
        ("fortran", "fortran", "gfortran141"),
        ("ada", "ada", "gnat141"),
        ("nim", "nim", "nim2020"),
        ("zig", "zig", "z0130"),
        ("assembly", "assembly", "nasm2_16_01"),
        ("asm", "assembly", "nasm2_16_01"),
        ("swift", "swift", "swift60"),
        ("kotlin", "kotlin", "kotlinc2020"),
        ("csharp", "csharp", "dotnet9csc"),
        ("c#", "csharp", "dotnet9csc"),
        ("fsharp", "fsharp", "dotnet9fsharpc"),
        ("f#", "fsharp", "dotnet9fsharpc"),
    ];
    assert(t@.map_values(|e: (&'static str, &'static str, &'static str)| (e.0@, e.1@, e.2@))
        =~= languages());
    t
}

/// The language and compiler of the first entry of the table from position `i` on whose tag is
/// `tag`.
pub open spec fn lookup_from(tag: Seq<char>, i: int) -> Option<(Seq<char>, Seq<char>)>
    decreases languages().len() - i,
{
    if i < 0 || i >= languages().len() {
        None
    } else if languages()[i].0 == tag {
        Some((languages()[i].1, languages()[i].2))
    } else {
        lookup_from(tag, i + 1)
    }
}

/// Godbolt's language id and compiler for the tag `tag`, if it is supported.
pub open spec fn language_of(tag: Seq<char>) -> Option<(Seq<char>, Seq<char>)> {
    lookup_from(tag, 0)
}

proof fn lemma_lookup_from_found(tag: Seq<char>, j: int, i: int)
    requires
        0 <= j <= i < languages().len(),
        languages()[i].0 == tag,
        forall|k: int| j <= k < i ==> languages()[k].0 != tag,
    ensures
        lookup_from(tag, j) == Some((languages()[i].1, languages()[i].2)),
    decreases i - j,
{
    if j < i {
        lemma_lookup_from_found(tag, j + 1, i);
    }
}

proof fn lemma_lookup_from_none(tag: Seq<char>, j: int)
    requires
        0 <= j,
        forall|k: int| j <= k < languages().len() ==> languages()[k].0 != tag,
    ensures
        lookup_from(tag, j) is None,
    decreases languages().len() - j,
{
    if j < languages().len() {
        lemma_lookup_from_none(tag, j + 1);
    }
}

proof fn lemma_lookup_from_some(tag: Seq<char>, j: int, k: int)
    requires
        0 <= j <= k < languages().len(),
        languages()[k].0 == tag,
    ensures
        lookup_from(tag, j) is Some,
    decreases k - j,
{
    if j < k && languages()[j].0 != tag {
        lemma_lookup_from_some(tag, j + 1, k);
    }
}

/// Every tag of the table, as the unsupported-language reply lists them, is accepted.
pub proof fn law_listed_tags_are_supported(k: int)
    requires
        0 <= k < languages().len(),
    ensures
        language_of(languages()[k].0) is Some,
{
    lemma_lookup_from_some(languages()[k].0, 0, k);
}

/// Godbolt's language id and compiler for a language tag.
pub fn lookup(tag: &str) -> (r: Option<(&'static str, &'static str)>)
    ensures
        match r {
            Some((lang, compiler)) => language_of(tag@) == Some((lang@, compiler@)),
            None => language_of(tag@) is None,
        },
{
    let table = language_table();
    let ghost views = table@.map_values(
        |e: (&'static str, &'static str, &'static str)| (e.0@, e.1@, e.2@),
    );
    let mut i: usize = 0;
    while i < table.len()
        invariant
            i <= table@.len(),
            views == table@.map_values(
                |e: (&'static str, &'static str, &'static str)| (e.0@, e.1@, e.2@),
            ),
            views == languages(),
            forall|k: int| 0 <= k < i ==> languages()[k].0 != tag@,
        decreases table@.len() - i,
    {
        let (key, lang, compiler) = table[i];
        if str_eq(key, tag) {
            proof {
                assert(views[i as int] == (key@, lang@, compiler@));
                lemma_lookup_from_found(tag@, 0, i as int);
            }
            return Some((lang, compiler));
        }
        assert(views[i as int] == (key@, lang@, compiler@));
        i += 1;
    }
    proof {
        lemma_lookup_from_none(tag@, 0);
    }
    None
}

/// `s` with every run of equal neighbours collapsed to one (what `Vec::dedup` leaves).
pub open spec fn dedup(s: Seq<Seq<char>>) -> Seq<Seq<char>>
    decreases s.len(),
{
    if s.len() <= 1 {
        s
    } else if s.last() == s[s.len() - 2] {
        dedup(s.drop_last())
    } else {
        dedup(s.drop_last()).push(s.last())
    }
}

/// The supported tags as the unsupported-language reply lists them.
pub open spec fn supported_list() -> Seq<char> {
    joined(dedup(languages().map_values(|e: (Seq<char>, Seq<char>, Seq<char>)| e.0)), ", "@)
}

/// The supported tags, in table order, neighbours that repeat left out, joined by `", "`.
pub fn supported_tags() -> (s: String)
    ensures
        s@ == supported_list(),
{
    let table = language_table();
    let ghost keys = languages().map_values(|e: (Seq<char>, Seq<char>, Seq<char>)| e.0);
    let mut tags: Vec<String> = Vec::new();
    let mut i: usize = 0;
    while i < table.len()
        invariant
            i <= table@.len() == keys.len(),
            keys == languages().map_values(|e: (Seq<char>, Seq<char>, Seq<char>)| e.0),
            table@.map_values(|e: (&'static str, &'static str, &'static str)| (e.0@, e.1@, e.2@))
                == languages(),
            tags@.map_values(|p: String| p@) == dedup(keys.take(i as int)),
        decreases table@.len() - i,
    {
        let ghost before = tags@.map_values(|p: String| p@);
        assert(keys.take(i + 1).drop_last() =~= keys.take(i as int));
        assert(table@[i as int].0@ == keys[i as int]);
        if i == 0 {
            tags.push(String::from_str(table[i].0));
            assert(tags@.map_values(|p: String| p@) =~= keys.take(1));
        } else {
            assert(table@[i - 1].0@ == keys[i - 1]);
            if !str_eq(table[i].0, table[i - 1].0) {
                tags.push(String::from_str(table[i].0));
                assert(tags@.map_values(|p: String| p@) =~= before.push(keys[i as int]));
            }
        }
        i += 1;
    }
    assert(keys.take(table@.len() as int) =~= keys);
    crate::text::join(&tags, ", ")
}

// ---------------------------------------------------------------------------
// Reading the request
// ---------------------------------------------------------------------------

/// Why a compile request got no compiler output.
pub enum CompileError {
    /// The message holds no opening code fence.
    NoCodeBlock,
    /// The opening fence is never closed.
    NoClosingFence,
    /// No language follows the opening fence.
    NoLanguage,
    /// The code block holds no code.
    EmptySource,
    /// The language tag (lower-cased) names no supported language.
    Unsupported(String),
    /// The request to Godbolt failed; the error's text.
    RequestFailed(String),
    /// Godbolt's answer was not JSON; the error's text.
    BadResponse(String),
}

/// A `CompileError` as plain values.
pub enum CompileErrorView {
    NoCodeBlock,
    NoClosingFence,
    NoLanguage,
    EmptySource,
    Unsupported(Seq<char>),
    RequestFailed(Seq<char>),
    BadResponse(Seq<char>),
}

impl View for CompileError {
    type V = CompileErrorView;

    open spec fn view(&self) -> CompileErrorView {
        match self {
            CompileError::NoCodeBlock => CompileErrorView::NoCodeBlock,
            CompileError::NoClosingFence => CompileErrorView::NoClosingFence,
            CompileError::NoLanguage => CompileErrorView::NoLanguage,
            CompileError::EmptySource => CompileErrorView::EmptySource,
            CompileError::Unsupported(t) => CompileErrorView::Unsupported(t@),
            CompileError::RequestFailed(e) => CompileErrorView::RequestFailed(e@),
            CompileError::BadResponse(e) => CompileErrorView::BadResponse(e@),
        }
    }
}

/// What to compile, and with what.
pub struct CompileRequest {
    pub lang_id: &'static str,
    pub compiler_id: &'static str,
    pub source: String,
}

/// The code fence.
pub open spec fn fence() -> Seq<char> {
    "```"@
}

/// The text between the first code fence of `content` and the next one: `None` when there is
/// no fence, `Some(None)` when the first one is not closed.
pub open spec fn code_block(content: Seq<char>) -> Option<Option<Seq<char>>> {
    match first_occurrence(content, fence()) {
        None => None,
        Some(open) => {
            let after = content.skip(open + fence().len());
            match first_occurrence(after, fence()) {
                None => Some(None),
                Some(close) => Some(Some(after.take(close))),
            }
        },
    }
}

/// The first line of a code block (all of it when it holds no line feed).
pub open spec fn first_line(block: Seq<char>) -> Seq<char> {
    if line_end(block) < block.len() {
        block.take(line_end(block) as int)
    } else {
        block
    }
}

/// What follows the first line feed of a code block (nothing when it holds none).
pub open spec fn after_first_line(block: Seq<char>) -> Seq<char> {
    if line_end(block) < block.len() {
        block.skip(line_end(block) + 1 as int)
    } else {
        Seq::empty()
    }
}

/// What a message asks to compile: the language id, the compiler and the code; or why it cannot
/// be compiled.
pub open spec fn request_outcome(content: Seq<char>) -> Result<
    (Seq<char>, Seq<char>, Seq<char>),
    CompileErrorView,
> {
    match code_block(content) {
        None => Err(CompileErrorView::NoCodeBlock),
        Some(None) => Err(CompileErrorView::NoClosingFence),
        Some(Some(block)) => {
            let tag = unicode_lowercase(trimmed(first_line(block)));
            let source = trimmed(after_first_line(block));
            if tag.len() == 0 {
                Err(CompileErrorView::NoLanguage)
            } else if source.len() == 0 {
                Err(CompileErrorView::EmptySource)
            } else {
                match language_of(tag) {
                    None => Err(CompileErrorView::Unsupported(tag)),
                    Some((lang, compiler)) => Ok((lang, compiler, source)),
                }
            }
        },
    }
}

/// `v[from..to]` as a new vector.
fn sub_vec(v: &Vec<char>, from: usize, to: usize) -> (out: Vec<char>)
    requires
        from <= to <= v@.len(),
    ensures
        out@ == v@.subrange(from as int, to as int),
{
    let mut out: Vec<char> = Vec::new();
    let mut i = from;
    while i < to
        invariant
            from <= i <= to <= v@.len(),
            out@ == v@.subrange(from as int, i as int),
        decreases to - i,
    {
        out.push(v[i]);
        assert(out@ =~= v@.subrange(from as int, i + 1));
        i += 1;
    }
    out
}

/// The position of the first line feed of `v`, or its length.
fn line_end_of(v: &Vec<char>) -> (e: usize)
    ensures
        e == line_end(v@),
{
    let mut i: usize = 0;
    while i < v.len() && v[i] != '\n'
        invariant
            i <= v@.len(),
            forall|k: int| 0 <= k < i ==> v@[k] != '\n',
        decreases v@.len() - i,
    {
        i += 1;
    }
    proof {
        lemma_line_end_is(v@, i as int);
    }
    i
}

/// Reads the code block of a message: the language after the opening fence and the code below
/// it.
pub fn parse_request(content: &str) -> (r: Result<CompileRequest, CompileError>)
    ensures
        match r {
            Ok(req) => request_outcome(content@) == Ok::<_, CompileErrorView>(
                (req.lang_id@, req.compiler_id@, req.source@),
            ),
            Err(e) => request_outcome(content@) == Err::<(Seq<char>, Seq<char>, Seq<char>), _>(e@),
        },
{
    proof {
        reveal_strlit("```");
    }
    let v = chars_of(content);
    let n = v.len();
    let pat = chars_of("```");
    assert(pat@.len() == 3);
    let found = find_in(&v, &pat);
    let open = match found {
        Some(i) => {
            assert(occurs_at(v@, pat@, i as int));
            i
        },
        None => {
            return Err(CompileError::NoCodeBlock);
        },
    };
    let after = sub_vec(&v, open + 3, n);
    assert(after@ =~= content@.skip(open + fence().len()));
    let close = match find_in(&after, &pat) {
        Some(i) => i,
        None => {
            return Err(CompileError::NoClosingFence);
        },
    };
    let block = sub_vec(&after, 0, close);
    assert(block@ =~= after@.take(close as int));
    let e = line_end_of(&block);
    proof {
        lemma_line_end(block@);
    }
    let (first, rest) = if e < block.len() {
        (string_of_range(&block, 0, e), string_of_range(&block, e + 1, block.len()))
    } else {
        (string_of_range(&block, 0, e), String::new())
    };
    assert(first@ =~= first_line(block@));
    assert(rest@ =~= after_first_line(block@));
    let trimmed_tag = trim(first.as_str());
    let tag = to_lowercase(trimmed_tag.as_str());
    let source = trim(rest.as_str());
    if tag.as_str().is_empty() {
        return Err(CompileError::NoLanguage);
    }
    if source.as_str().is_empty() {
        return Err(CompileError::EmptySource);
    }
    match lookup(tag.as_str()) {
        None => Err(CompileError::Unsupported(tag)),
        Some((lang_id, compiler_id)) => Ok(CompileRequest { lang_id, compiler_id, source }),
    }
}

// ---------------------------------------------------------------------------
// Replies to requests that are not compiled
// ---------------------------------------------------------------------------

/// The reply to a message that could not be compiled.
pub open spec fn error_text(e: CompileErrorView) -> Seq<char> {
    match e {
        CompileErrorView::NoCodeBlock => "Wrap your code in a fenced code block with the language.\nExample:\n\\`\\`\\`rust\nfn main() {}\n\\`\\`\\`"@,
        CompileErrorView::NoClosingFence => "Couldn't find closing ` ``` `."@,
        CompileErrorView::NoLanguage => "Specify a language after the opening backticks, e.g. ` ```rust `."@,
        CompileErrorView::EmptySource => "Code block is empty."@,
        CompileErrorView::Unsupported(tag) => "Unsupported language `"@ + tag + "`.\nSupported: "@
            + supported_list(),
        CompileErrorView::RequestFailed(err) => "Godbolt request failed: "@ + err,
        CompileErrorView::BadResponse(err) => "Failed to parse Godbolt response: "@ + err,
    }
}

/// The reply that the bot sends when a message could not be compiled.
pub fn error_reply(e: &CompileError) -> (text: String)
    ensures
        text@ == error_text(e@),
{
    match e {
        CompileError::NoCodeBlock => String::from_str(
            "Wrap your code in a fenced code block with the language.\nExample:\n\\`\\`\\`rust\nfn main() {}\n\\`\\`\\`",
        ),
        CompileError::NoClosingFence => String::from_str("Couldn't find closing ` ``` `."),
        CompileError::NoLanguage => String::from_str(
            "Specify a language after the opening backticks, e.g. ` ```rust `.",
        ),
        CompileError::EmptySource => String::from_str("Code block is empty."),
        CompileError::Unsupported(tag) => {
            let mut s = String::from_str("Unsupported language `");
            s.append(tag.as_str());
            s.append("`.\nSupported: ");
            let tags = supported_tags();
            s.append(tags.as_str());
            s
        },
        CompileError::RequestFailed(err) => {
            let mut s = String::from_str("Godbolt request failed: ");
            s.append(err.as_str());
            s
        },
        CompileError::BadResponse(err) => {
            let mut s = String::from_str("Failed to parse Godbolt response: ");
            s.append(err.as_str());
            s
        },
    }
}

// ---------------------------------------------------------------------------
// Talking to Godbolt
// ---------------------------------------------------------------------------

/// Godbolt's compiler API.
pub const GODBOLT_API: &'static str = "https://godbolt.org/api/compiler";

/// Where a compile request for `compiler_id` is posted.
pub fn compile_endpoint(compiler_id: &str) -> (url: String)
    ensures
        url@ == GODBOLT_API@ + "/"@ + compiler_id@ + "/compile"@,
{
    let mut url = String::from_str(GODBOLT_API);
    url.append("/");
    url.append(compiler_id);
    url.append("/compile");
    url
}

#[verifier::external_type_specification]
#[verifier::external_body]
pub struct ExJsonError(serde_json::Error);

/// The lower-case hexadecimal digit for `d < 16`.
pub open spec fn hex_digit(d: int) -> char {
    if d < 10 {
        (('0' as int) + d) as char
    } else {
        (('a' as int) + d - 10) as char
    }
}

/// How `serde_json` writes one character inside a string: `"` and `\` behind a backslash, the
/// named controls as `\b`, `\t`, `\n`, `\f`, `\r`, the other controls below U+0020 as
/// `\u00XX` in lower-case hexadecimal, and every other character as it is.
pub open spec fn json_escape(c: char) -> Seq<char> {
    if c == '"' {
        seq!['\\', '"']
    } else if c == '\\' {
        seq!['\\', '\\']
    } else if c == '\u{8}' {
        seq!['\\', 'b']
    } else if c == '\t' {
        seq!['\\', 't']
    } else if c == '\n' {
        seq!['\\', 'n']
    } else if c == '\u{c}' {
        seq!['\\', 'f']
    } else if c == '\r' {
        seq!['\\', 'r']
    } else if (c as int) < 0x20 {
        seq!['\\', 'u', '0', '0', hex_digit((c as int) / 16), hex_digit((c as int) % 16)]
    } else {
        seq![c]
    }
}

/// The characters of `text`, each escaped as `json_escape` writes it.
pub open spec fn json_escaped(text: Seq<char>) -> Seq<char>
    decreases text.len(),
{
    if text.len() == 0 {
        Seq::empty()
    } else {
        json_escaped(text.drop_last()) + json_escape(text.last())
    }
}

/// The JSON string literal that `serde_json::to_string` writes for `text`: the escaped
/// characters between double quotes.
pub open spec fn json_string_literal(text: Seq<char>) -> Seq<char> {
    seq!['"'] + json_escaped(text) + seq!['"']
}

/// The character of the standard Base64 alphabet for `v < 64`: `A`-`Z`, `a`-`z`, `0`-`9`, `+`,
/// `/`.
pub open spec fn base64_char(v: int) -> char {
    if v < 26 {
        (('A' as int) + v) as char
    } else if v < 52 {
        (('a' as int) + v - 26) as char
    } else if v < 62 {
        (('0' as int) + v - 52) as char
    } else if v == 62 {
        '+'
    } else {
        '/'
    }
}

/// The standard, padded Base64 encoding of `bytes` (RFC 4648), as `base64`'s `STANDARD` engine
/// writes it: each group of three bytes becomes four characters of six bits each; a final group
/// of one or two bytes is filled with zero bits and padded with `=` to four characters.
pub open spec fn base64_standard(bytes: Seq<u8>) -> Seq<char>
    decreases bytes.len(),
{
    if bytes.len() == 0 {
        Seq::empty()
    } else if bytes.len() == 1 {
        let b0 = bytes[0] as int;
        seq![base64_char(b0 / 4), base64_char((b0 % 4) * 16), '=', '=']
    } else if bytes.len() == 2 {
        let b0 = bytes[0] as int;
        let b1 = bytes[1] as int;
        seq![
            base64_char(b0 / 4),
            base64_char((b0 % 4) * 16 + b1 / 16),
            base64_char((b1 % 16) * 4),
            '=',
        ]
    } else {
        let b0 = bytes[0] as int;
        let b1 = bytes[1] as int;
        let b2 = bytes[2] as int;
        seq![
            base64_char(b0 / 4),
            base64_char((b0 % 4) * 16 + b1 / 16),
            base64_char((b1 % 16) * 4 + b2 / 64),
            base64_char(b2 % 64),
        ] + base64_standard(bytes.skip(3))
    }
}

/// Calls `serde_json::to_string` on a string. On a `str` it cannot fail: the serializer writes
/// into a `Vec<u8>`, whose writes do not fail, and a string is serialized by
/// `format_escaped_str` alone, which writes `json_string_literal` of the string's characters.
#[verifier::external_body]
fn json_string(text: &str) -> (r: Result<String, serde_json::Error>)
    ensures
        r is Ok,
        r->Ok_0@ == json_string_literal(text@),
{
    serde_json::to_string(text)
}

/// Calls `STANDARD.encode` of the `base64` crate on the UTF-8 bytes of `text`: their standard,
/// padded Base64 encoding, `base64_standard`.
#[verifier::external_body]
fn base64_encode(text: &str) -> (r: String)
    ensures
        r@ == base64_standard(vstd::utf8::encode_utf8(text@)),
{
    base64::Engine::encode(&base64::engine::general_purpose::STANDARD, text)
}

/// The client state that opens `source_literal` (a JSON string literal) in Godbolt's editor
/// with the language `lang_id` and an executor running `compiler_id`.
pub open spec fn client_state(lang_id: Seq<char>, compiler_id: Seq<char>, source_literal: Seq<char>) -> Seq<char> {
    "{\"sessions\":[{\"id\":1,\"language\":\""@ + lang_id + "\",\"source\":"@ + source_literal
        + ",\"compilers\":[],\"executors\":[{\"compiler\":{\"id\":\""@ + compiler_id
        + "\",\"libs\":[],\"options\":\"\"},\"stdin\":\"\",\"args\":\"\"}]}]}"@
}

/// How one character of an encoded state is written in the link: `/` as `%2F`.
pub open spec fn escape_char(c: char) -> Seq<char> {
    if c == '/' {
        seq!['%', '2', 'F']
    } else {
        seq![c]
    }
}

/// `s` with every `/` written as `%2F`.
pub open spec fn escape_slashes(s: Seq<char>) -> Seq<char>
    decreases s.len(),
{
    if s.len() == 0 {
        Seq::empty()
    } else {
        escape_char(s[0]) + escape_slashes(s.skip(1))
    }
}

/// Escaping one more character appends its escape.
pub proof fn lemma_escape_push(s: Seq<char>, c: char)
    ensures
        escape_slashes(s.push(c)) == escape_slashes(s) + escape_char(c),
    decreases s.len(),
{
    if s.len() == 0 {
        assert(s.push(c).skip(1) =~= Seq::<char>::empty());
        assert(s.push(c)[0] == c);
        assert(escape_slashes(Seq::<char>::empty()) =~= Seq::<char>::empty());
        assert(escape_slashes(s) =~= Seq::<char>::empty());
        assert(escape_slashes(s.push(c)) =~= escape_char(c));
    } else {
        assert(s.push(c).skip(1) =~= s.skip(1).push(c));
        lemma_escape_push(s.skip(1), c);
        assert(escape_slashes(s.push(c)) =~= escape_slashes(s) + escape_char(c));
    }
}

/// The link that opens the encoded client state `encoded` on Godbolt.
pub open spec fn clientstate_link(encoded: Seq<char>) -> Seq<char> {
    "https://godbolt.org/clientstate/"@ + escape_slashes(encoded)
}

/// The link for the given language, compiler and source literal.
pub open spec fn godbolt_link(lang_id: Seq<char>, compiler_id: Seq<char>, source_literal: Seq<char>) -> Seq<char> {
    clientstate_link(base64_standard(vstd::utf8::encode_utf8(client_state(lang_id, compiler_id, source_literal))))
}

/// The client state for the given language, compiler and source literal.
pub fn client_state_text(lang_id: &str, compiler_id: &str, source_literal: &str) -> (s: String)
    ensures
        s@ == client_state(lang_id@, compiler_id@, source_literal@),
{
    let mut s = String::from_str("{\"sessions\":[{\"id\":1,\"language\":\"");
    s.append(lang_id);
    s.append("\",\"source\":");
    s.append(source_literal);
    s.append(",\"compilers\":[],\"executors\":[{\"compiler\":{\"id\":\"");
    s.append(compiler_id);
    s.append("\",\"libs\":[],\"options\":\"\"},\"stdin\":\"\",\"args\":\"\"}]}]}");
    s
}

/// The link for an encoded client state: `/` escaped so that it stays one path segment.
pub fn clientstate_url(encoded: &str) -> (url: String)
    ensures
        url@ == clientstate_link(encoded@),
{
    proof {
        reveal_strlit("%2F");
        assert("%2F"@ =~= seq!['%', '2', 'F']);
            }
    let v = chars_of(encoded);
    let mut url = String::from_str("https://godbolt.org/clientstate/");
    let mut i: usize = 0;
    while i < v.len()
        invariant
            i <= v@.len(),
            v@ == encoded@,
            "%2F"@ == seq!['%', '2', 'F'],
            url@ == "https://godbolt.org/clientstate/"@ + escape_slashes(v@.take(i as int)),
        decreases v@.len() - i,
    {
        assert(v@.take(i + 1) =~= v@.take(i as int).push(v@[i as int]));
        proof {
            lemma_escape_push(v@.take(i as int), v@[i as int]);
        }
        if v[i] == '/' {
            url.append("%2F");
        } else {
            push_char(&mut url, v[i]);
        }
        assert(url@ =~= "https://godbolt.org/clientstate/"@ + escape_slashes(v@.take(i + 1)));
        i += 1;
    }
    assert(v@.take(v@.len() as int) =~= v@);
    url
}

/// The link that opens the code in Godbolt's editor: the client state for the language, the
/// compiler and the code (as a JSON string), Base64-encoded.
pub fn godbolt_url(lang_id: &str, compiler_id: &str, source: &str) -> (url: String)
    ensures
        url@ == godbolt_link(lang_id@, compiler_id@, json_string_literal(source@)),
{
    let literal = match json_string(source) {
        Ok(s) => s,
        Err(_) => String::new(),
    };
    let state = client_state_text(lang_id, compiler_id, literal.as_str());
    let encoded = base64_encode(state.as_str());
    let url = clientstate_url(encoded.as_str());
    assert(url@ == godbolt_link(lang_id@, compiler_id@, literal@));
    url
}

/// No `/` is left in an escaped client state.
pub proof fn law_escaped_state_has_no_slash(encoded: Seq<char>)
    ensures
        !escape_slashes(encoded).contains('/'),
    decreases encoded.len(),
{
    if encoded.len() > 0 {
        law_escaped_state_has_no_slash(encoded.skip(1));
        let head = escape_char(encoded[0]);
        let rest = escape_slashes(encoded.skip(1));
        let whole = escape_slashes(encoded);
        assert(whole == head + rest);
        assert forall|k: int| 0 <= k < whole.len() implies whole[k] != '/' by {
            if k < head.len() {
                assert(whole[k] == head[k]);
            } else {
                assert(whole[k] == rest[k - head.len()]);
            }
        }
    }
}

// ---------------------------------------------------------------------------
// Reading a link back
// ---------------------------------------------------------------------------

/// The six-bit value of a character of the standard Base64 alphabet (0 for any other).
pub open spec fn base64_value(c: char) -> int {
    let v = c as int;
    if 'A' as int <= v <= 'Z' as int {
        v - 'A' as int
    } else if 'a' as int <= v <= 'z' as int {
        v - 'a' as int + 26
    } else if '0' as int <= v <= '9' as int {
        v - '0' as int + 52
    } else if c == '+' {
        62
    } else if c == '/' {
        63
    } else {
        0
    }
}

/// The bytes that padded Base64 text decodes to, four characters at a time.
pub open spec fn base64_decode(s: Seq<char>) -> Seq<u8>
    decreases s.len(),
{
    if s.len() < 4 {
        Seq::empty()
    } else {
        let v0 = base64_value(s[0]);
        let v1 = base64_value(s[1]);
        let v2 = base64_value(s[2]);
        let v3 = base64_value(s[3]);
        let b0 = (v0 * 4 + v1 / 16) as u8;
        let b1 = ((v1 % 16) * 16 + v2 / 4) as u8;
        let b2 = ((v2 % 4) * 64 + v3) as u8;
        if s[2] == '=' {
            seq![b0]
        } else if s[3] == '=' {
            seq![b0, b1]
        } else {
            seq![b0, b1, b2] + base64_decode(s.skip(4))
        }
    }
}

/// `s` with every `%2F` read back as `/`.
pub open spec fn unescape_slashes(s: Seq<char>) -> Seq<char>
    decreases s.len(),
{
    if s.len() == 0 {
        Seq::empty()
    } else if s.len() >= 3 && s[0] == '%' && s[1] == '2' && s[2] == 'F' {
        seq!['/'] + unescape_slashes(s.skip(3))
    } else {
        seq![s[0]] + unescape_slashes(s.skip(1))
    }
}

proof fn lemma_base64_char(v: int)
    requires
        0 <= v < 64,
    ensures
        base64_value(base64_char(v)) == v,
        base64_char(v) != '=',
        base64_char(v) != '%',
{
}

proof fn lemma_group(b0: int, b1: int, b2: int)
    requires
        0 <= b0 < 256,
        0 <= b1 < 256,
        0 <= b2 < 256,
    ensures
        0 <= b0 / 4 < 64,
        0 <= (b0 % 4) * 16 + b1 / 16 < 64,
        0 <= (b1 % 16) * 4 + b2 / 64 < 64,
        0 <= b2 % 64 < 64,
        (b0 / 4) * 4 + ((b0 % 4) * 16 + b1 / 16) / 16 == b0,
        (((b0 % 4) * 16 + b1 / 16) % 16) * 16 + ((b1 % 16) * 4 + b2 / 64) / 4 == b1,
        (((b1 % 16) * 4 + b2 / 64) % 4) * 64 + b2 % 64 == b2,
{
    assert(0 <= b1 / 16 < 16);
    assert(0 <= b2 / 64 < 4);
    assert(((b0 % 4) * 16 + b1 / 16) / 16 == b0 % 4);
    assert(((b0 % 4) * 16 + b1 / 16) % 16 == b1 / 16);
    assert(((b1 % 16) * 4 + b2 / 64) / 4 == b1 % 16);
    assert(((b1 % 16) * 4 + b2 / 64) % 4 == b2 / 64);
}

/// Base64 text holds no `%`.
pub proof fn lemma_base64_has_no_percent(bytes: Seq<u8>)
    ensures
        !base64_standard(bytes).contains('%'),
    decreases bytes.len(),
{
    if bytes.len() > 0 {
        let b0 = bytes[0] as int;
        let b1 = if bytes.len() > 1 { bytes[1] as int } else { 0 };
        let b2 = if bytes.len() > 2 { bytes[2] as int } else { 0 };
        lemma_group(b0, b1, b2);
        lemma_base64_char(b0 / 4);
        lemma_base64_char((b0 % 4) * 16 + b1 / 16);
        lemma_base64_char((b1 % 16) * 4 + b2 / 64);
        lemma_base64_char(b2 % 64);
        lemma_base64_char((b0 % 4) * 16);
        lemma_base64_char((b1 % 16) * 4);
        let whole = base64_standard(bytes);
        if bytes.len() >= 3 {
            lemma_base64_has_no_percent(bytes.skip(3));
            let rest = base64_standard(bytes.skip(3));
            assert forall|k: int| 0 <= k < whole.len() implies whole[k] != '%' by {
                if k >= 4 {
                    assert(whole[k] == rest[k - 4]);
                }
            }
        } else {
            assert forall|k: int| 0 <= k < whole.len() implies whole[k] != '%' by {
            }
        }
    }
}

/// Decoding standard Base64 gives the bytes back.
pub proof fn lemma_base64_round_trip(bytes: Seq<u8>)
    ensures
        base64_decode(base64_standard(bytes)) == bytes,
    decreases bytes.len(),
{
    if bytes.len() > 0 {
        let b0 = bytes[0] as int;
        let b1 = if bytes.len() > 1 { bytes[1] as int } else { 0 };
        let b2 = if bytes.len() > 2 { bytes[2] as int } else { 0 };
        lemma_group(b0, b1, b2);
        lemma_base64_char(b0 / 4);
        lemma_base64_char((b0 % 4) * 16 + b1 / 16);
        lemma_base64_char((b1 % 16) * 4 + b2 / 64);
        lemma_base64_char(b2 % 64);
        lemma_base64_char((b0 % 4) * 16);
        lemma_base64_char((b1 % 16) * 4);
        let enc = base64_standard(bytes);
        if bytes.len() == 1 {
            assert((((b0 % 4) * 16) / 16) == b0 % 4);
            assert(base64_decode(enc) =~= bytes);
        } else if bytes.len() == 2 {
            assert(((b1 % 16) * 4) / 4 == b1 % 16);
            assert(base64_decode(enc) =~= bytes);
        } else {
            lemma_base64_round_trip(bytes.skip(3));
            assert(enc.skip(4) =~= base64_standard(bytes.skip(3)));
            assert(base64_decode(enc) =~= bytes);
        }
    }
}

/// Reading back an escaped text that holds no `%` gives the text.
pub proof fn lemma_unescape_escape(s: Seq<char>)
    requires
        !s.contains('%'),
    ensures
        unescape_slashes(escape_slashes(s)) == s,
    decreases s.len(),
{
    if s.len() > 0 {
        assert(!s.skip(1).contains('%')) by {
            if s.skip(1).contains('%') {
                let k = choose|k: int| 0 <= k < s.skip(1).len() && s.skip(1)[k] == '%';
                assert(s[k + 1] == '%');
            }
        }
        lemma_unescape_escape(s.skip(1));
        let e = escape_slashes(s);
        let rest = escape_slashes(s.skip(1));
        assert(e == escape_char(s[0]) + rest);
        if s[0] == '/' {
            assert(e.skip(3) =~= rest);
        } else {
            assert(s[0] != '%');
            assert(e.skip(1) =~= rest);
        }
        assert(unescape_slashes(e) =~= s);
    }
}

/// A Godbolt link reads back to the client state it was made from: the text after the
/// clientstate prefix, with `%2F` read back as `/` and Base64-decoded, is the UTF-8 of the state.
pub proof fn law_link_decodes_to_state(
    lang_id: Seq<char>,
    compiler_id: Seq<char>,
    source_literal: Seq<char>,
)
    ensures
        ({
            let state = vstd::utf8::encode_utf8(client_state(lang_id, compiler_id, source_literal));
            let encoded = escape_slashes(base64_standard(state));
            &&& godbolt_link(lang_id, compiler_id, source_literal) == "https://godbolt.org/clientstate/"@
                + encoded
            &&& !encoded.contains('/')
            &&& base64_decode(unescape_slashes(encoded)) == state
        }),
{
    let state = vstd::utf8::encode_utf8(client_state(lang_id, compiler_id, source_literal));
    lemma_base64_has_no_percent(state);
    lemma_unescape_escape(base64_standard(state));
    lemma_base64_round_trip(state);
    law_escaped_state_has_no_slash(base64_standard(state));
}

// ---------------------------------------------------------------------------
// Godbolt's answer
// ---------------------------------------------------------------------------

/// A list of output lines as plain values: each line's text, `None` for a line without one.
pub open spec fn texts_view(texts: Seq<Option<String>>) -> Seq<Option<Seq<char>>> {
    texts.map_values(|t: Option<String>| match t {
        Some(s) => Some(s@),
        None => None,
    })
}

/// The texts that are present, in order.
pub open spec fn present(texts: Seq<Option<Seq<char>>>) -> Seq<Seq<char>>
    decreases texts.len(),
{
    if texts.len() == 0 {
        Seq::empty()
    } else {
        let rest = present(texts.drop_last());
        match texts.last() {
            Some(t) => rest.push(t),
            None => rest,
        }
    }
}

/// The output of one stream: the text of each of its lines, joined by line feeds.
pub open spec fn stream_text(texts: Seq<Option<Seq<char>>>) -> Seq<char> {
    joined(present(texts), "\n"@)
}

/// Joins the texts of the lines of an output stream (lines without a text are skipped).
pub fn extract_text(texts: &Vec<Option<String>>) -> (out: String)
    ensures
        out@ == stream_text(texts_view(texts@)),
{
    let ghost all = texts_view(texts@);
    let mut kept: Vec<String> = Vec::new();
    let mut i: usize = 0;
    while i < texts.len()
        invariant
            i <= texts@.len(),
            all == texts_view(texts@),
            kept@.map_values(|p: String| p@) == present(all.take(i as int)),
        decreases texts@.len() - i,
    {
        let ghost before = kept@.map_values(|p: String| p@);
        assert(all.take(i + 1).drop_last() =~= all.take(i as int));
        assert(all.take(i + 1).last() == all[i as int]);
        match &texts[i] {
            Some(t) => {
                kept.push(t.clone());
                assert(kept@.map_values(|p: String| p@) =~= before.push(t@));
            },
            None => {},
        }
        i += 1;
    }
    assert(all.take(texts@.len() as int) =~= all);
    crate::text::join(&kept, "\n")
}

/// The parts of the reply to a compiled program: build errors, standard output and standard
/// error, each when not empty; or, when all are empty, the exit code (`?` when unknown).
pub open spec fn output_parts(
    build_stderr: Seq<char>,
    stdout: Seq<char>,
    stderr: Seq<char>,
    code: Option<i64>,
) -> Seq<Seq<char>> {
    let p1: Seq<Seq<char>> = if build_stderr.len() > 0 {
        seq!["[build errors]\n"@ + build_stderr]
    } else {
        Seq::empty()
    };
    let p2 = if stdout.len() > 0 {
        p1.push(stdout)
    } else {
        p1
    };
    let p3 = if stderr.len() > 0 {
        p2.push("[stderr]\n"@ + stderr)
    } else {
        p2
    };
    if p3.len() == 0 {
        seq![
            "(no output, exit code "@ + match code {
                Some(c) => signed_decimal(c as int),
                None => "?"@,
            } + ")"@,
        ]
    } else {
        p3
    }
}

/// The text of the reply to a compiled program, from Godbolt's answer: the lines of the build's
/// standard error, of the program's standard output and standard error, and the `code` and
/// `exitCode` fields.
pub open spec fn output_text(
    build_stderr: Seq<Option<Seq<char>>>,
    stdout: Seq<Option<Seq<char>>>,
    stderr: Seq<Option<Seq<char>>>,
    code: Option<i64>,
    exit_code: Option<i64>,
) -> Seq<char> {
    joined(
        output_parts(
            stream_text(build_stderr),
            stream_text(stdout),
            stream_text(stderr),
            match code {
                Some(c) => Some(c),
                None => exit_code,
            },
        ),
        "\n\n"@,
    )
}

/// The text of the reply to a compiled program.
pub fn compile_output(
    build_stderr: &Vec<Option<String>>,
    stdout: &Vec<Option<String>>,
    stderr: &Vec<Option<String>>,
    code: Option<i64>,
    exit_code: Option<i64>,
) -> (out: String)
    ensures
        out@ == output_text(
            texts_view(build_stderr@),
            texts_view(stdout@),
            texts_view(stderr@),
            code,
            exit_code,
        ),
{
    let b = extract_text(build_stderr);
    let o = extract_text(stdout);
    let e = extract_text(stderr);
    let mut parts: Vec<String> = Vec::new();
    if !b.as_str().is_empty() {
        let mut p = String::from_str("[build errors]\n");
        p.append(b.as_str());
        parts.push(p);
    }
    if !o.as_str().is_empty() {
        parts.push(o);
    }
    if !e.as_str().is_empty() {
        let mut p = String::from_str("[stderr]\n");
        p.append(e.as_str());
        parts.push(p);
    }
    if parts.len() == 0 {
        let c = match code {
            Some(c) => Some(c),
            None => exit_code,
        };
        let mut p = String::from_str("(no output, exit code ");
        match c {
            Some(c) => {
                let t = i64_to_string(c);
                p.append(t.as_str());
            },
            None => {
                p.append("?");
            },
        }
        p.append(")");
        parts.push(p);
    }
    let ghost expected = output_parts(
        stream_text(texts_view(build_stderr@)),
        stream_text(texts_view(stdout@)),
        stream_text(texts_view(stderr@)),
        match code {
            Some(c) => Some(c),
            None => exit_code,
        },
    );
    assert(parts@.map_values(|p: String| p@) =~= expected);
    crate::text::join(&parts, "\n\n")
}

// ---------------------------------------------------------------------------
// The reply
// ---------------------------------------------------------------------------

/// How the compiler output is sent.
pub enum CompileReply {
    /// A reply holding the output in a code block and the link.
    Inline(String),
    /// A message holding the link, with the output attached as `output.txt`.
    Attachment { message: String, file: String },
}

/// A `CompileReply` as plain values.
pub enum CompileReplyView {
    Inline(Seq<char>),
    Attachment { message: Seq<char>, file: Seq<char> },
}

impl View for CompileReply {
    type V = CompileReplyView;

    open spec fn view(&self) -> CompileReplyView {
        match self {
            CompileReply::Inline(text) => CompileReplyView::Inline(text@),
            CompileReply::Attachment { message, file } => CompileReplyView::Attachment {
                message: message@,
                file: file@,
            },
        }
    }
}

/// The link line that follows the output.
pub open spec fn link_line(url: Seq<char>) -> Seq<char> {
    "\n[view on godbolt](<"@ + url + ">)"@
}

/// The reply that holds the output in a code block.
pub open spec fn inline_text(output: Seq<char>, url: Seq<char>) -> Seq<char> {
    "```\n"@ + output + "\n```"@ + link_line(url)
}

/// The UTF-8 length in bytes of `s`.
pub open spec fn byte_len(s: Seq<char>) -> nat {
    vstd::utf8::encode_utf8(s).len()
}

/// Output and link together are too long for one message (more than 1990 bytes with the code
/// fences).
pub open spec fn too_long(output: Seq<char>, url: Seq<char>) -> bool {
    byte_len(output) + byte_len(link_line(url)) + 8 > 1990
}

/// How the output `output` of the program linked at `url` is sent: inline when it fits, else
/// attached, with the link (trimmed) as the message.
pub open spec fn reply_for(output: Seq<char>, url: Seq<char>) -> CompileReplyView {
    if too_long(output, url) {
        CompileReplyView::Attachment { message: trimmed(link_line(url)), file: output }
    } else {
        CompileReplyView::Inline(inline_text(output, url))
    }
}

/// The UTF-8 length of one character.
fn char_utf8_len(c: char) -> (n: u128)
    ensures
        n == byte_len(seq![c]),
        1 <= n <= 4,
{
    let u = c as u32;
    proof {
        vstd::utf8::char_is_scalar(c);
        let one = seq![c];
        assert(one.drop_first() =~= Seq::<char>::empty());
        assert(vstd::utf8::encode_utf8(one) == vstd::utf8::encode_scalar(one[0] as u32)
            + vstd::utf8::encode_utf8(one.drop_first()));
        assert(vstd::utf8::encode_utf8(one) =~= vstd::utf8::encode_scalar(u));
    }
    if u < 0x80 {
        1
    } else if u < 0x800 {
        2
    } else if u < 0x10000 {
        3
    } else {
        4
    }
}

/// The length of `s` in bytes (what `str::len` gives).
pub fn utf8_len(s: &str) -> (n: u128)
    ensures
        n == byte_len(s@),
        n <= 4 * (usize::MAX as int),
{
    let v = chars_of(s);
    let mut total: u128 = 0;
    let mut i: usize = 0;
    while i < v.len()
        invariant
            i <= v@.len(),
            v@ == s@,
            total == byte_len(v@.take(i as int)),
            total <= 4 * i,
        decreases v@.len() - i,
    {
        let w = char_utf8_len(v[i]);
        proof {
            lemma_byte_len_concat(v@.take(i as int), seq![v@[i as int]]);
            assert(v@.take(i as int) + seq![v@[i as int]] =~= v@.take(i + 1));
        }
        total = total + w;
        i += 1;
    }
    assert(v@.take(v@.len() as int) =~= v@);
    total
}

/// How the output `output` of the program linked at `url` is sent.
pub fn compile_reply(output: &str, url: &str) -> (r: CompileReply)
    ensures
        r@ == reply_for(output@, url@),
{
    let mut link = String::from_str("\n[view on godbolt](<");
    link.append(url);
    link.append(">)");
    assert(link@ =~= link_line(url@));
    let a = utf8_len(output);
    let b = utf8_len(link.as_str());
    if a + b + 8 > 1990 {
        let message = trim(link.as_str());
        CompileReply::Attachment { message, file: String::from_str(output) }
    } else {
        let mut text = String::from_str("```\n");
        text.append(output);
        text.append("\n```");
        text.append(link.as_str());
        assert(text@ =~= inline_text(output@, url@));
        CompileReply::Inline(text)
    }
}

/// The UTF-8 length of a concatenation is the sum of the lengths.
pub proof fn lemma_byte_len_concat(a: Seq<char>, b: Seq<char>)
    ensures
        byte_len(a + b) == byte_len(a) + byte_len(b),
    decreases a.len(),
{
    if a.len() > 0 {
        lemma_byte_len_concat(a.drop_first(), b);
        assert((a + b).drop_first() =~= a.drop_first() + b);
    } else {
        assert(a + b =~= b);
    }
}

/// A reply that holds the output inline never exceeds 1990 bytes, safely under Discord's limit
/// of 2000 characters per message.
pub proof fn law_inline_reply_fits(output: Seq<char>, url: Seq<char>)
    requires
        !too_long(output, url),
    ensures
        byte_len(inline_text(output, url)) <= 1990,
{
    reveal_strlit("```\n");
    reveal_strlit("\n```");
    let open = "```\n"@;
    let close = "\n```"@;
    assert(byte_len(open) == 4) by {
        reveal_with_fuel(vstd::utf8::encode_utf8, 5);
    }
    assert(byte_len(close) == 4) by {
        reveal_with_fuel(vstd::utf8::encode_utf8, 5);
    }
    lemma_byte_len_concat(open, output);
    lemma_byte_len_concat(open + output, close);
    lemma_byte_len_concat(open + output + close, link_line(url));
}

// ---------------------------------------------------------------------------
// From Godbolt's answer to the reply
// ---------------------------------------------------------------------------

/// What the reply reads of Godbolt's answer: the lines of the build's standard error, of the
/// program's standard output and standard error (each line's `text`, if it has one; no lines
/// when the field is not an array), and the `code` and `exitCode` fields when they are integers.
pub struct GodboltAnswer {
    pub build_stderr: Vec<Option<String>>,
    pub stdout: Vec<Option<String>>,
    pub stderr: Vec<Option<String>>,
    pub code: Option<i64>,
    pub exit_code: Option<i64>,
}

/// The text of the reply to the answer `answer`.
pub open spec fn answer_output(answer: GodboltAnswer) -> Seq<char> {
    output_text(
        texts_view(answer.build_stderr@),
        texts_view(answer.stdout@),
        texts_view(answer.stderr@),
        answer.code,
        answer.exit_code,
    )
}

/// The reply to a compiled request: the output of Godbolt's answer, with the link that opens the
/// request's code in Godbolt's editor.
pub fn answer_reply(request: &CompileRequest, answer: &GodboltAnswer) -> (r: CompileReply)
    ensures
        r@ == reply_for(
            answer_output(*answer),
            godbolt_link(request.lang_id@, request.compiler_id@, json_string_literal(request.source@)),
        ),
{
    let url = godbolt_url(request.lang_id, request.compiler_id, request.source.as_str());
    let output = compile_output(
        &answer.build_stderr,
        &answer.stdout,
        &answer.stderr,
        answer.code,
        answer.exit_code,
    );
    compile_reply(output.as_str(), url.as_str())
}

/// The whole path of a message that can be compiled: the reply holds the output of Godbolt's
/// answer (build errors, standard output, standard error, or the exit code), with a link whose
/// client state holds the code as serde_json writes it and no `/`; inline in a code block of at
/// most 1990 bytes when it fits, else attached, with the trimmed link as the message.
pub proof fn law_compile_pipeline(
    content: Seq<char>,
    build_stderr: Seq<Option<Seq<char>>>,
    stdout: Seq<Option<Seq<char>>>,
    stderr: Seq<Option<Seq<char>>>,
    code: Option<i64>,
    exit_code: Option<i64>,
)
    requires
        request_outcome(content) is Ok,
    ensures
        ({
            let (lang, compiler, source) = request_outcome(content)->Ok_0;
            let state = client_state(lang, compiler, json_string_literal(source));
            let url = godbolt_link(lang, compiler, json_string_literal(source));
            let out = output_text(build_stderr, stdout, stderr, code, exit_code);
            &&& url == "https://godbolt.org/clientstate/"@ + escape_slashes(
                base64_standard(vstd::utf8::encode_utf8(state)),
            )
            &&& !escape_slashes(base64_standard(vstd::utf8::encode_utf8(state))).contains('/')
            &&& base64_decode(
                unescape_slashes(escape_slashes(base64_standard(vstd::utf8::encode_utf8(state)))),
            ) == vstd::utf8::encode_utf8(state)
            &&& match reply_for(out, url) {
                CompileReplyView::Inline(text) => text == "```\n"@ + out + "\n```"@ + link_line(url)
                    && byte_len(text) <= 1990,
                CompileReplyView::Attachment { message, file } => file == out && message
                    == trimmed(link_line(url)) && too_long(out, url),
            }
        }),
{
    let (lang, compiler, source) = request_outcome(content)->Ok_0;
    let state = client_state(lang, compiler, json_string_literal(source));
    let url = godbolt_link(lang, compiler, json_string_literal(source));
    let out = output_text(build_stderr, stdout, stderr, code, exit_code);
    law_link_decodes_to_state(lang, compiler, json_string_literal(source));
    if !too_long(out, url) {
        law_inline_reply_fits(out, url);
    }
}

// ---------------------------------------------------------------------------
// Laws of the reply text
// ---------------------------------------------------------------------------

/// A stream with no lines has no text.
pub proof fn law_empty_stream_has_no_text()
    ensures
        stream_text(Seq::empty()) == Seq::<char>::empty(),
{
}

/// A line without a text adds nothing to its stream.
pub proof fn law_line_without_text_adds_nothing(texts: Seq<Option<Seq<char>>>)
    ensures
        stream_text(texts.push(None)) == stream_text(texts),
{
    assert(texts.push(None).drop_last() =~= texts);
}

/// A line with a text, empty or not, is kept: it follows the stream's text after a line feed, or
/// is the whole text when no earlier line had one.
pub proof fn law_line_with_text_is_kept(texts: Seq<Option<Seq<char>>>, t: Seq<char>)
    ensures
        (exists|i: int| 0 <= i < texts.len() && texts[i] is Some) ==> stream_text(
            texts.push(Some(t)),
        ) == stream_text(texts) + "\n"@ + t,
        (forall|i: int| 0 <= i < texts.len() ==> texts[i] is None) ==> stream_text(
            texts.push(Some(t)),
        ) == t,
{
    assert(texts.push(Some(t)).drop_last() =~= texts);
    lemma_present_empty_iff(texts);
    let p = present(texts);
    assert(present(texts.push(Some(t))) == p.push(t));
    assert(p.push(t).drop_last() =~= p);
    if p.len() == 0 {
        assert(p.push(t) =~= seq![t]);
    }
}

/// No text is present exactly when no line has one.
proof fn lemma_present_empty_iff(texts: Seq<Option<Seq<char>>>)
    ensures
        (present(texts).len() == 0) == (forall|i: int| 0 <= i < texts.len() ==> texts[i] is None),
    decreases texts.len(),
{
    if texts.len() > 0 {
        lemma_present_empty_iff(texts.drop_last());
        if texts.last() is None {
            assert forall|i: int| 0 <= i < texts.len() - 1 implies texts[i] == texts.drop_last()[i] by {}
        } else {
            assert(present(texts).len() > 0);
        }
    }
}

/// Each non-empty stream appears in the reply: the build errors and standard error behind their
/// headers, standard output as it is.
pub proof fn law_non_empty_streams_are_reported(
    build_stderr: Seq<Option<Seq<char>>>,
    stdout: Seq<Option<Seq<char>>>,
    stderr: Seq<Option<Seq<char>>>,
    code: Option<i64>,
    exit_code: Option<i64>,
)
    ensures
        stream_text(build_stderr).len() > 0 ==> crate::text::contains(
            output_text(build_stderr, stdout, stderr, code, exit_code),
            "[build errors]\n"@ + stream_text(build_stderr),
        ),
        stream_text(stdout).len() > 0 ==> crate::text::contains(
            output_text(build_stderr, stdout, stderr, code, exit_code),
            stream_text(stdout),
        ),
        stream_text(stderr).len() > 0 ==> crate::text::contains(
            output_text(build_stderr, stdout, stderr, code, exit_code),
            "[stderr]\n"@ + stream_text(stderr),
        ),
{
    let b = stream_text(build_stderr);
    let o = stream_text(stdout);
    let e = stream_text(stderr);
    let c = match code {
        Some(c) => Some(c),
        None => exit_code,
    };
    let parts = output_parts(b, o, e, c);
    let p1: Seq<Seq<char>> = if b.len() > 0 {
        seq!["[build errors]\n"@ + b]
    } else {
        Seq::empty()
    };
    let p2 = if o.len() > 0 {
        p1.push(o)
    } else {
        p1
    };
    if b.len() > 0 {
        assert(parts[0] == "[build errors]\n"@ + b);
        crate::text::lemma_joined_contains(parts, "\n\n"@, 0);
    }
    if o.len() > 0 {
        assert(parts[p1.len() as int] == o);
        crate::text::lemma_joined_contains(parts, "\n\n"@, p1.len() as int);
    }
    if e.len() > 0 {
        assert(parts[p2.len() as int] == "[stderr]\n"@ + e);
        crate::text::lemma_joined_contains(parts, "\n\n"@, p2.len() as int);
    }
}

/// The exit code is reported only when all three streams are empty: otherwise the reply does
/// not depend on it. When they are all empty, the reply is the exit-code line alone, with `code`
/// taking precedence over `exitCode`.
pub proof fn law_exit_code_only_without_output(
    build_stderr: Seq<Option<Seq<char>>>,
    stdout: Seq<Option<Seq<char>>>,
    stderr: Seq<Option<Seq<char>>>,
    code: Option<i64>,
    exit_code: Option<i64>,
    other_code: Option<i64>,
    other_exit_code: Option<i64>,
)
    ensures
        (stream_text(build_stderr).len() > 0 || stream_text(stdout).len() > 0 || stream_text(
            stderr,
        ).len() > 0) ==> output_text(build_stderr, stdout, stderr, code, exit_code) == output_text(
            build_stderr,
            stdout,
            stderr,
            other_code,
            other_exit_code,
        ),
        (stream_text(build_stderr).len() == 0 && stream_text(stdout).len() == 0 && stream_text(
            stderr,
        ).len() == 0) ==> output_text(build_stderr, stdout, stderr, code, exit_code)
            == "(no output, exit code "@ + match (code, exit_code) {
            (Some(c), _) => crate::number::signed_decimal(c as int),
            (None, Some(x)) => crate::number::signed_decimal(x as int),
            (None, None) => "?"@,
        } + ")"@,
{
}

// ---------------------------------------------------------------------------
// Law of the request
// ---------------------------------------------------------------------------

/// `s` neither starts nor ends with white space.
pub open spec fn no_outer_white_space(s: Seq<char>) -> bool {
    s.len() > 0 && !crate::text::unicode_white_space(s[0]) && !crate::text::unicode_white_space(
        s.last(),
    )
}

proof fn lemma_trimmed_keeps(s: Seq<char>)
    requires
        no_outer_white_space(s),
    ensures
        crate::text::trimmed(s) == s,
{
}

/// A window of three backticks inside `a + seq![sep] + b`, where `sep` is no backtick, lies
/// wholly in `a` or wholly in `b`.
proof fn lemma_fence_avoids(a: Seq<char>, sep: char, b: Seq<char>, k: int)
    requires
        sep != '`',
        occurs_at(a + seq![sep] + b, fence(), k),
    ensures
        (k + 3 <= a.len() && occurs_at(a, fence(), k)) || (k >= a.len() + 1 && occurs_at(
            b,
            fence(),
            k - a.len() - 1,
        )),
{
    reveal_strlit("```");
    let w = a + seq![sep] + b;
    assert(w.subrange(k, k + 3)[0] == w[k]);
    assert(w.subrange(k, k + 3)[1] == w[k + 1]);
    assert(w.subrange(k, k + 3)[2] == w[k + 2]);
    if k + 3 <= a.len() {
        assert(a.subrange(k, k + 3) =~= w.subrange(k, k + 3));
    } else if k >= a.len() + 1 {
        assert(b.subrange(k - a.len() - 1, k - a.len() + 2) =~= w.subrange(k, k + 3));
    } else {
        assert(w[a.len() as int] == sep);
    }
}

/// A message whose code block is written as "```", the language tag, a line feed, the code, a
/// line feed and "```" asks to compile exactly that code, unchanged, with the language and compiler
/// that the lower-cased tag names: when the tag is supported, holds no line feed, no backtick run
/// and no white space at its ends, and the code is not empty, holds no "```" and has no white
/// space at its ends.
pub proof fn law_request_keeps_the_code(tag: Seq<char>, code: Seq<char>)
    requires
        no_outer_white_space(tag),
        !tag.contains('\n'),
        !crate::text::contains(tag, fence()),
        language_of(unicode_lowercase(tag)) is Some,
        unicode_lowercase(tag).len() > 0,
        no_outer_white_space(code),
        !crate::text::contains(code, fence()),
    ensures
        request_outcome(fence() + tag + seq!['\n'] + code + seq!['\n'] + fence()) == Ok::<
            _,
            CompileErrorView,
        >(
            (
                language_of(unicode_lowercase(tag))->Some_0.0,
                language_of(unicode_lowercase(tag))->Some_0.1,
                code,
            ),
        ),
{
    reveal_strlit("```");
    let content = fence() + tag + seq!['\n'] + code + seq!['\n'] + fence();
    // The opening fence is at the start.
    assert(content.subrange(0, 3) =~= fence());
    crate::text::lemma_first_from_found(content, fence(), 0, 0);
    let after = content.skip(3);
    let inner = tag + seq!['\n'] + code;
    assert(after =~= inner + seq!['\n'] + fence());
    let close: int = inner.len() as int + 1;
    assert(after.subrange(close, close + 3) =~= fence());
    assert forall|k: int| 0 <= k < close implies !occurs_at(after, fence(), k) by {
        if occurs_at(after, fence(), k) {
            lemma_fence_avoids(inner, '\n', fence(), k);
            if k + 3 <= inner.len() {
                lemma_fence_avoids(tag, '\n', code, k);
                if k + 3 <= tag.len() {
                    assert(crate::text::contains(tag, fence()));
                } else {
                    assert(crate::text::contains(code, fence()));
                }
            }
        }
    }
    crate::text::lemma_first_from_found(after, fence(), 0, close);
    let block = after.take(close);
    assert(block =~= inner + seq!['\n']);
    // The first line is the tag; the rest is the code and the line feed before the fence.
    assert forall|k: int| 0 <= k < tag.len() implies block[k] != '\n' by {
        assert(block[k] == tag[k]);
        assert(tag.contains(tag[k]));
    }
    crate::text::lemma_line_end_is(block, tag.len() as int);
    assert(first_line(block) =~= tag);
    assert(after_first_line(block) =~= code.push('\n'));
    lemma_trimmed_keeps(tag);
    lemma_trimmed_keeps(code);
    assert(code.push('\n').drop_last() =~= code);
    assert(crate::text::trimmed(code.push('\n')) == code) by {
        assert(code.push('\n')[0] == code[0]);
        assert(crate::text::trim_start(code.push('\n')) == code.push('\n'));
        assert(crate::text::trim_end(code.push('\n')) == crate::text::trim_end(code));
    }
}

/// A message without a code fence cannot be compiled for want of a code block; one whose only
/// fence opens it cannot be compiled for want of a closing fence.
pub proof fn law_missing_fences_are_reported(content: Seq<char>, rest: Seq<char>)
    ensures
        !crate::text::contains(content, fence()) ==> request_outcome(content) == Err::<
            (Seq<char>, Seq<char>, Seq<char>),
            _,
        >(CompileErrorView::NoCodeBlock),
        !crate::text::contains(rest, fence()) ==> request_outcome(fence() + rest) == Err::<
            (Seq<char>, Seq<char>, Seq<char>),
            _,
        >(CompileErrorView::NoClosingFence),
{
    reveal_strlit("```");
    if !crate::text::contains(content, fence()) {
        crate::text::lemma_first_from_none(content, fence(), 0);
    }
    if !crate::text::contains(rest, fence()) {
        let content2 = fence() + rest;
        assert(content2.subrange(0, 3) =~= fence());
        crate::text::lemma_first_from_found(content2, fence(), 0, 0);
        assert(content2.skip(3) =~= rest);
        crate::text::lemma_first_from_none(rest, fence(), 0);
    }
}

/// With build errors, standard output and standard error all present, the reply lists them in
/// that order, separated by blank lines, the first and last behind their headers.
pub proof fn law_streams_in_order(
    build_stderr: Seq<Option<Seq<char>>>,
    stdout: Seq<Option<Seq<char>>>,
    stderr: Seq<Option<Seq<char>>>,
    code: Option<i64>,
    exit_code: Option<i64>,
)
    requires
        stream_text(build_stderr).len() > 0,
        stream_text(stdout).len() > 0,
        stream_text(stderr).len() > 0,
    ensures
        output_text(build_stderr, stdout, stderr, code, exit_code) == "[build errors]\n"@
            + stream_text(build_stderr) + "\n\n"@ + stream_text(stdout) + "\n\n"@ + "[stderr]\n"@
            + stream_text(stderr),
{
    let b = stream_text(build_stderr);
    let o = stream_text(stdout);
    let e = stream_text(stderr);
    let c = match code {
        Some(c) => Some(c),
        None => exit_code,
    };
    let parts = output_parts(b, o, e, c);
    assert(parts =~= seq!["[build errors]\n"@ + b, o, "[stderr]\n"@ + e]);
    assert(parts.drop_last() =~= seq!["[build errors]\n"@ + b, o]);
    assert(parts.drop_last().drop_last() =~= seq!["[build errors]\n"@ + b]);
    let sep = "\n\n"@;
    assert(joined(parts.drop_last().drop_last(), sep) == "[build errors]\n"@ + b);
    assert(joined(parts.drop_last(), sep) == joined(parts.drop_last().drop_last(), sep) + sep + o);
    assert(joined(parts, sep) == joined(parts.drop_last(), sep) + sep + ("[stderr]\n"@ + e));
    assert(joined(parts, sep) =~= "[build errors]\n"@ + b + sep + o + sep + "[stderr]\n"@ + e);
}

/// When only one stream has text, the reply is that stream alone (behind its header for build
/// errors and standard error).
pub proof fn law_single_stream(
    texts: Seq<Option<Seq<char>>>,
    nothing: Seq<Option<Seq<char>>>,
    code: Option<i64>,
    exit_code: Option<i64>,
)
    requires
        stream_text(texts).len() > 0,
        stream_text(nothing).len() == 0,
    ensures
        output_text(texts, nothing, nothing, code, exit_code) == "[build errors]\n"@ + stream_text(texts),
        output_text(nothing, texts, nothing, code, exit_code) == stream_text(texts),
        output_text(nothing, nothing, texts, code, exit_code) == "[stderr]\n"@ + stream_text(texts),
{
}

} // verus!
