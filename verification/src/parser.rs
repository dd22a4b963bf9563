//! Parsing one file: choosing its language by extension, reading its imports and symbols,
//! and the content hash that tells whether it changed.
use vstd::prelude::*;
use vstd::string::*;
use md5::Digest;
use crate::constants::language_of;
use crate::extract::{edge_views, edges_from, resolutions_ok, symbol_views};
use crate::paths::extension;
use crate::elixir_syntax::{elixir_imports, elixir_symbols, extract_elixir};
use crate::ruby_syntax::{extract_ruby, ruby_imports, ruby_symbols};
use crate::rust_syntax::{extract_rust, rust_imports, rust_symbols};
use crate::syntax::{fits_source, well_formed, SyntaxTree};
use crate::treesitter::{has_grammar, mirrors, parse_fits, parse_syntax, ts_accepts, ParseError};
use crate::ts_js::{extract_ts_js, ts_js_imports, ts_js_symbols};
use crate::types::FileParseResult;

verus! {

/// The language of a file, by the extension of its path.
pub open spec fn file_language(file_path: Seq<char>) -> Option<Seq<char>> {
    match extension(file_path) {
        Some(e) => language_of(seq!['.'] + e),
        None => None,
    }
}

/// The error a file is refused with before it is parsed: it has no extension, its
/// extension is not supported, or its language has no grammar.
pub open spec fn refusal(file_path: Seq<char>) -> Option<Seq<char>> {
    match extension(file_path) {
        None => Some("No extension: "@ + file_path),
        Some(e) => match language_of(seq!['.'] + e) {
            None => Some("Unsupported file extension: "@ + seq!['.'] + e),
            Some(l) => if !has_grammar(l) {
                Some("Unknown language: "@ + l)
            } else {
                None
            },
        },
    }
}

/// What a parse of a file found in `t`, the copy of the tree tree-sitter builds for its
/// content in its language: its symbols, and its imports, each resolved to some target a
/// resolver may give.
pub open spec fn parsed_from(file_path: Seq<char>, content: Seq<char>, crate_root: Seq<char>, t: SyntaxTree, r: FileParseResult) -> bool {
    &&& well_formed(t)
    &&& fits_source(t, content)
    &&& mirrors(t, r.language@, content)
    &&& if r.language@ == "rust"@ {
        &&& symbol_views(r.symbols@) == rust_symbols(content, t)
        &&& exists|targets: Seq<Option<Seq<char>>>| #![auto]
            resolutions_ok(file_path, crate_root, rust_imports(t), targets)
                && edge_views(r.imports@) == edges_from(file_path, rust_imports(t), targets)
    } else if r.language@ == "ruby"@ {
        &&& symbol_views(r.symbols@) == ruby_symbols(content, t)
        &&& exists|targets: Seq<Option<Seq<char>>>| #![auto]
            resolutions_ok(file_path, file_path, ruby_imports(t), targets)
                && edge_views(r.imports@) == edges_from(file_path, ruby_imports(t), targets)
    } else if r.language@ == "elixir"@ {
        &&& symbol_views(r.symbols@) == elixir_symbols(content, t)
        &&& exists|targets: Seq<Option<Seq<char>>>| #![auto]
            resolutions_ok(file_path, file_path, elixir_imports(t), targets)
                && edge_views(r.imports@) == edges_from(file_path, elixir_imports(t), targets)
    } else {
        &&& symbol_views(r.symbols@) == ts_js_symbols(content, t)
        &&& exists|targets: Seq<Option<Seq<char>>>| #![auto]
            resolutions_ok(file_path, file_path, ts_js_imports(t), targets)
                && edge_views(r.imports@) == edges_from(file_path, ts_js_imports(t), targets)
    }
}

/// The language of a file by the extension of its path; the error says why it has none:
/// `No extension: <path>` or `Unsupported file extension: .<ext>`.
pub fn language_of_file(file_path: &str) -> (r: Result<crate::constants::LanguageConfig, String>)
    ensures
        match extension(file_path@) {
            None => r matches Err(e) && e@ == "No extension: "@ + file_path@,
            Some(x) => match language_of(seq!['.'] + x) {
                None => r matches Err(e) && e@ == "Unsupported file extension: "@ + seq!['.'] + x,
                Some(l) => r matches Ok(c) && c.language@ == l,
            },
        },
{
    let p = crate::text::chars_of(file_path);
    let ext = match crate::paths::extension_chars(&p) {
        Some(e) => e,
        None => {
            let mut msg = String::from_str("No extension: ");
            msg.append(file_path);
            return Err(msg);
        },
    };
    let mut dotted: Vec<char> = Vec::new();
    dotted.push('.');
    let dotted = crate::text::concat(&dotted, &ext);
    assert(dotted@ =~= seq!['.'] + ext@);
    let dotted_s = crate::text::string_of(&dotted);
    match crate::constants::language_config(dotted_s.as_str()) {
        Some(c) => Ok(c),
        None => {
            let mut msg = String::from_str("Unsupported file extension: ");
            msg.append(dotted_s.as_str());
            assert(msg@ =~= "Unsupported file extension: "@ + seq!['.'] + ext@);
            Err(msg)
        },
    }
}

/// The directory `crate::` paths start from: the crate root when one is given, else the
/// file itself.
pub open spec fn root_or(crate_root: Option<&str>, file_path: Seq<char>) -> Seq<char> {
    match crate_root {
        Some(c) => c@,
        None => file_path,
    }
}

/// Parses a file whose path is `file_path` and whose text is `content`. A file without
/// an extension, with an unsupported one, or in a language without a grammar is refused
/// with its message. Otherwise the file is parsed with tree-sitter: where tree-sitter
/// refuses the grammar the error is `Failed to set language: ...`, where its tree has a
/// node past the text's last line it is `Failed to parse <path>`, and else the parse gives
/// the file's language, its symbols, and its imports whose targets were found, all read
/// from the copy of tree-sitter's tree. Rust `use` paths starting with `crate::` are
/// looked for from `crate_root`, or from the file itself when none is given.
pub fn parse_source_file(file_path: &str, content: &str, crate_root: Option<&str>) -> (r: Result<FileParseResult, String>)
    ensures
        refusal(file_path@) matches Some(msg) ==> (r matches Err(e) && e@ == msg),
        refusal(file_path@) is None ==> ((r is Ok) <==> (ts_accepts(file_language(file_path@)->0)
            && parse_fits(file_language(file_path@)->0, content@))),
        refusal(file_path@) is None && r is Ok ==> r->Ok_0.language@ == file_language(file_path@)->0
            && exists|t: SyntaxTree| #[trigger] parsed_from(file_path@, content@, root_or(crate_root, file_path@), t, r->Ok_0),
        refusal(file_path@) is None && r is Err ==> if ts_accepts(file_language(file_path@)->0) {
            r->Err_0@ == "Failed to parse "@ + file_path@
        } else {
            crate::text::starts_with(r->Err_0@, "Failed to set language: "@)
        },
{
    let config = match language_of_file(file_path) {
        Ok(c) => c,
        Err(e) => {
            return Err(e);
        },
    };
    let language = config.language;
    let tree = match parse_syntax(language, content) {
        Ok(t) => t,
        Err(ParseError::UnknownLanguage) => {
            let mut msg = String::from_str("Unknown language: ");
            msg.append(language);
            return Err(msg);
        },
        Err(ParseError::Language(e)) => {
            let mut msg = String::from_str("Failed to set language: ");
            msg.append(e.as_str());
            assert(msg@.take("Failed to set language: "@.len() as int) =~= "Failed to set language: "@);
            return Err(msg);
        },
        Err(ParseError::NoTree) => {
            let mut msg = String::from_str("Failed to parse ");
            msg.append(file_path);
            return Err(msg);
        },
    };
    let ghost root_spec = root_or(crate_root, file_path@);
    let res = if crate::syntax::same_text(language, "rust") {
        let root = match crate_root {
            Some(c) => c,
            None => file_path,
        };
        let (imports, symbols) = extract_rust(file_path, content, &tree, root);
        let res = FileParseResult { imports, symbols, language: String::from_str(language) };
        assert(parsed_from(file_path@, content@, root_spec, tree, res));
        res
    } else if crate::syntax::same_text(language, "ruby") {
        let (imports, symbols) = extract_ruby(file_path, content, &tree);
        let res = FileParseResult { imports, symbols, language: String::from_str(language) };
        assert(parsed_from(file_path@, content@, root_spec, tree, res));
        res
    } else if crate::syntax::same_text(language, "elixir") {
        let (imports, symbols) = extract_elixir(file_path, content, &tree);
        let res = FileParseResult { imports, symbols, language: String::from_str(language) };
        assert(parsed_from(file_path@, content@, root_spec, tree, res));
        res
    } else {
        let (imports, symbols) = extract_ts_js(file_path, content, &tree, language);
        let res = FileParseResult { imports, symbols, language: String::from_str(language) };
        assert(parsed_from(file_path@, content@, root_spec, tree, res));
        res
    };
    assert(res.language@ == language@);
    assert(exists|t: SyntaxTree| #[trigger] parsed_from(file_path@, content@, root_or(crate_root, file_path@), t, res));
    Ok(res)
}

/// The MD5 digest of the UTF-8 encoding of a text.
pub uninterp spec fn md5_of(content: Seq<char>) -> Seq<u8>;

/// `md5::Md5::digest` of the text's bytes. Claimed: the result is `md5_of` the text, and
/// it is 16 bytes long (MD5 digests are 128 bits).
#[verifier::external_body]
fn md5_digest(content: &str) -> (r: Vec<u8>)
    ensures
        r@ == md5_of(content@),
        r@.len() == 16,
{
    md5::Md5::digest(content.as_bytes()).to_vec()
}

/// The lowercase hexadecimal digit of a value below 16.
pub open spec fn hex_digit(d: nat) -> char {
    if d < 10 {
        crate::text::digit_char(d)
    } else if d == 10 {
        'a'
    } else if d == 11 {
        'b'
    } else if d == 12 {
        'c'
    } else if d == 13 {
        'd'
    } else if d == 14 {
        'e'
    } else {
        'f'
    }
}

/// Bytes written as lowercase hexadecimal, two digits each, high digit first.
pub open spec fn hex(bytes: Seq<u8>) -> Seq<char>
    decreases bytes.len(),
{
    if bytes.len() == 0 {
        seq![]
    } else {
        hex(bytes.drop_last()) + seq![hex_digit((bytes.last() / 16) as nat), hex_digit((bytes.last() % 16) as nat)]
    }
}

fn hex_digit_of(d: u8) -> (c: char)
    requires
        d < 16,
    ensures
        c == hex_digit(d as nat),
{
    if d < 10 {
        crate::text::digit_of(d as usize)
    } else if d == 10 {
        'a'
    } else if d == 11 {
        'b'
    } else if d == 12 {
        'c'
    } else if d == 13 {
        'd'
    } else if d == 14 {
        'e'
    } else {
        'f'
    }
}

/// Bytes written as lowercase hexadecimal.
pub fn hex_string(bytes: &Vec<u8>) -> (r: String)
    ensures
        r@ == hex(bytes@),
{
    let mut out: Vec<char> = Vec::new();
    let mut i: usize = 0;
    while i < bytes.len()
        invariant
            i <= bytes.len(),
            out@ == hex(bytes@.take(i as int)),
        decreases bytes.len() - i,
    {
        let b = bytes[i];
        out.push(hex_digit_of(b / 16));
        out.push(hex_digit_of(b % 16));
        assert(bytes@.take(i + 1).drop_last() =~= bytes@.take(i as int));
        assert(out@ =~= hex(bytes@.take(i + 1)));
        i += 1;
    }
    assert(bytes@.take(bytes.len() as int) =~= bytes@);
    crate::text::string_of(&out)
}

/// The content hash of a text: its MD5 digest in lowercase hexadecimal (32 digits).
pub fn hash_content(content: &str) -> (r: String)
    ensures
        r@ == hex(md5_of(content@)),
        r@.len() == 32,
{
    let digest = md5_digest(content);
    proof {
        law_hex_length(digest@);
    }
    hex_string(&digest)
}

/// Bytes written in hexadecimal take two digits each.
pub proof fn law_hex_length(bytes: Seq<u8>)
    ensures
        hex(bytes).len() == 2 * bytes.len(),
    decreases bytes.len(),
{
    if bytes.len() > 0 {
        law_hex_length(bytes.drop_last());
    }
}

} // verus!
