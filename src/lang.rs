//! The languages the editor understands, and how a file's language is found.

use vstd::prelude::*;
use vstd::utf8::*;

use crate::text::{lemma_valid_between, str_eq, string_of_bytes, text_bytes};

verus! {

broadcast use encode_utf8_valid_utf8;

/// A language the editor has a grammar for.
#[derive(Debug, Clone, Copy, PartialEq, Eq, Structural, Hash)]
pub enum SupportedLanguage {
    TypeScript,
    Tsx,
    JavaScript,
    Jsx,
    Css,
}

/// A language name or file extension the editor does not know.
#[derive(Debug, Clone, PartialEq, Eq)]
pub enum LangError {
    Unsupported(String),
}

/// What `str::to_lowercase` makes of a text.
pub uninterp spec fn lower_of(s: Seq<char>) -> Seq<char>;

/// Relies on `str::to_lowercase`: the lowercase form depends on the text alone.
#[verifier::external_body]
pub(crate) fn lowercase(s: &str) -> (r: String)
    ensures
        r@ == lower_of(s@),
{
    s.to_lowercase()
}

/// What `Path::extension` reads as the extension of a path (empty when it finds none).
pub uninterp spec fn extension_of(path: Seq<char>) -> Seq<char>;

/// Relies on `Path::extension`: the extension of the path's file name, read
/// from the path alone; a path without one gives the empty text.
#[verifier::external_body]
pub(crate) fn path_extension(path: &str) -> (r: String)
    ensures
        r@ == extension_of(path@),
{
    std::path::Path::new(path).extension().and_then(|e| e.to_str()).unwrap_or("").to_string()
}

/// The language a lowercase name stands for.
pub open spec fn language_named(n: Seq<char>) -> Option<SupportedLanguage> {
    if n == "typescript"@ || n == "ts"@ {
        Some(SupportedLanguage::TypeScript)
    } else if n == "tsx"@ {
        Some(SupportedLanguage::Tsx)
    } else if n == "javascript"@ || n == "js"@ {
        Some(SupportedLanguage::JavaScript)
    } else if n == "jsx"@ {
        Some(SupportedLanguage::Jsx)
    } else if n == "css"@ {
        Some(SupportedLanguage::Css)
    } else {
        None
    }
}

/// The language a lowercase file extension stands for.
pub open spec fn language_of_extension(e: Seq<char>) -> Option<SupportedLanguage> {
    if e == "ts"@ {
        Some(SupportedLanguage::TypeScript)
    } else if e == "tsx"@ {
        Some(SupportedLanguage::Tsx)
    } else if e == "js"@ || e == "mjs"@ || e == "cjs"@ {
        Some(SupportedLanguage::JavaScript)
    } else if e == "jsx"@ {
        Some(SupportedLanguage::Jsx)
    } else if e == "css"@ {
        Some(SupportedLanguage::Css)
    } else {
        None
    }
}

/// The bytes of `b` from the first one that is not a dot.
pub open spec fn without_leading_dots(b: Seq<u8>) -> Seq<u8>
    decreases b.len(),
{
    if b.len() > 0 && b[0] == 0x2e {
        without_leading_dots(b.drop_first())
    } else {
        b
    }
}

/// The key a file extension is looked up by: without leading dots, lowercased.
pub open spec fn extension_key(ext: Seq<char>) -> Seq<char> {
    lower_of(decode_utf8(without_leading_dots(text_bytes(ext))))
}

proof fn lemma_dots_suffix(b: Seq<u8>, i: int)
    requires
        0 <= i <= b.len(),
        forall|k: int| 0 <= k < i ==> b[k] == 0x2e,
    ensures
        without_leading_dots(b) == without_leading_dots(b.subrange(i, b.len() as int)),
    decreases i,
{
    if i > 0 {
        assert(b.drop_first().subrange(i - 1, b.len() - 1) =~= b.subrange(i, b.len() as int));
        lemma_dots_suffix(b.drop_first(), i - 1);
    } else {
        assert(b.subrange(0, b.len() as int) =~= b);
    }
}

/// The language a lowercase name stands for; the name itself as the error otherwise.
pub fn language_for_name(n: String) -> (r: Result<SupportedLanguage, LangError>)
    ensures
        match r {
            Ok(l) => language_named(n@) == Some(l),
            Err(LangError::Unsupported(x)) => language_named(n@) is None && x@ == n@,
        },
{
    let k = n.as_str();
    if str_eq(k, "typescript") || str_eq(k, "ts") {
        Ok(SupportedLanguage::TypeScript)
    } else if str_eq(k, "tsx") {
        Ok(SupportedLanguage::Tsx)
    } else if str_eq(k, "javascript") || str_eq(k, "js") {
        Ok(SupportedLanguage::JavaScript)
    } else if str_eq(k, "jsx") {
        Ok(SupportedLanguage::Jsx)
    } else if str_eq(k, "css") {
        Ok(SupportedLanguage::Css)
    } else {
        Err(LangError::Unsupported(n))
    }
}

/// The language a lowercase extension without its dot stands for; the
/// extension itself as the error otherwise.
pub fn language_for_extension_key(e: String) -> (r: Result<SupportedLanguage, LangError>)
    ensures
        match r {
            Ok(l) => language_of_extension(e@) == Some(l),
            Err(LangError::Unsupported(x)) => language_of_extension(e@) is None && x@ == e@,
        },
{
    let k = e.as_str();
    if str_eq(k, "ts") {
        Ok(SupportedLanguage::TypeScript)
    } else if str_eq(k, "tsx") {
        Ok(SupportedLanguage::Tsx)
    } else if str_eq(k, "js") || str_eq(k, "mjs") || str_eq(k, "cjs") {
        Ok(SupportedLanguage::JavaScript)
    } else if str_eq(k, "jsx") {
        Ok(SupportedLanguage::Jsx)
    } else if str_eq(k, "css") {
        Ok(SupportedLanguage::Css)
    } else {
        Err(LangError::Unsupported(e))
    }
}

impl SupportedLanguage {
    /// The language named `s`, in any case: `typescript`/`ts`, `tsx`,
    /// `javascript`/`js`, `jsx` or `css`.
    pub fn from_str(s: &str) -> (r: Result<SupportedLanguage, LangError>)
        ensures
            match r {
                Ok(l) => language_named(lower_of(s@)) == Some(l),
                Err(LangError::Unsupported(x)) => language_named(lower_of(s@)) is None && x@ == lower_of(s@),
            },
    {
        language_for_name(lowercase(s))
    }

    /// The language of a file extension, with or without its dot, in any case.
    pub fn from_extension(ext: &str) -> (r: Result<SupportedLanguage, LangError>)
        ensures
            match r {
                Ok(l) => language_of_extension(extension_key(ext@)) == Some(l),
                Err(LangError::Unsupported(x)) => language_of_extension(extension_key(ext@)) is None
                    && x@ == extension_key(ext@),
            },
    {
        let b = ext.as_bytes();
        let mut i: usize = 0;
        while i < b.len() && b[i] == 0x2e
            invariant
                i <= b@.len(),
                forall|k: int| 0 <= k < i ==> b@[k] == 0x2e,
            decreases b@.len() - i,
        {
            i += 1;
        }
        let mut rest: Vec<u8> = Vec::new();
        crate::text::push_range(&mut rest, b, i, b.len());
        proof {
            lemma_dots_suffix(b@, i as int);
            if i < b@.len() {
                assert(b@.subrange(i as int, b@.len() as int)[0] != 0x2e);
            }
            assert(b@.subrange(0, 0) =~= Seq::<u8>::empty());
            assert forall|k: int| 0 <= 0 <= k < i <= b@.len() implies #[trigger] is_leading_byte_width_1(b@[k]) by {}
            partial_valid_utf8_extend_ascii_block(b@, 0, i as int);
            assert(b@.subrange(0, b@.len() as int) =~= b@);
            lemma_valid_between(b@, i as int, b@.len() as int);
        }
        let t = string_of_bytes(rest);
        proof {
            encode_utf8_decode_utf8(t@);
        }
        language_for_extension_key(lowercase(t.as_str()))
    }
}

/// The language of the file at `path`, by its extension.
pub fn detect_language(path: &str) -> (r: Result<SupportedLanguage, LangError>)
    ensures
        match r {
            Ok(l) => language_of_extension(extension_key(extension_of(path@))) == Some(l),
            Err(LangError::Unsupported(x)) => language_of_extension(extension_key(extension_of(path@))) is None
                && x@ == extension_key(extension_of(path@)),
        },
{
    let ext = path_extension(path);
    SupportedLanguage::from_extension(ext.as_str())
}

} // verus!
