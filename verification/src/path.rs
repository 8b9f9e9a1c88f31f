//! The path value: a resolved text together with the dialect it is read
//! in.

use vstd::prelude::*;
use crate::common::texts;
use crate::extension::{
    base_name_spec, base_name_without_ext_spec, change_extension_spec,
    change_last_extension_spec, has_extension_spec, has_extensions_spec, is_single_extension,
};
use crate::flexible::{
    is_absolute_spec, relative_spec, resolve_n_spec, resolve_one_spec, resolve_onto, resolve_spec,
};
use crate::resolved::{dot_free, lemma_resolve_dot_free, lemma_resolve_n_dot_free};
use crate::text::{chars_of, string_of};
use crate::variant::FlexPathVariant;

verus! {

/// How `text` is written out in the dialect `v`: with a backslash in
/// place of each forward slash in the Windows dialect, unchanged in the
/// common one.
pub open spec fn rendered(text: Seq<char>, v: FlexPathVariant) -> Seq<char> {
    match v {
        FlexPathVariant::Common => text,
        FlexPathVariant::Windows => text.map_values(
            |c: char|
                if c == '/' {
                    '\\'
                } else {
                    c
                },
        ),
    }
}

/// How `text` is written out in the dialect `v`, on characters.
pub fn render_chars(text: &Vec<char>, v: FlexPathVariant) -> (out: Vec<char>)
    ensures
        out@ == rendered(text@, v),
{
    let mut out: Vec<char> = Vec::new();
    let mut i: usize = 0;
    assert(text@.take(0) =~= Seq::<char>::empty());
    assert(out@ =~= rendered(text@.take(0), v));
    while i < text.len()
        invariant
            i <= text.len(),
            out@ == rendered(text@.take(i as int), v),
        decreases text.len() - i,
    {
        let c = text[i];
        let windows = match v {
            FlexPathVariant::Common => false,
            FlexPathVariant::Windows => true,
        };
        if windows && c == '/' {
            out.push('\\');
        } else {
            out.push(c);
        }
        assert(out@ =~= rendered(text@.take(i + 1), v));
        i += 1;
    }
    assert(text@.take(i as int) =~= text@);
    out
}

/// A textual file path, read in the dialect of its variant. Its text is
/// resolved when the path is constructed, and again whenever another path
/// is resolved against it.
#[derive(Debug, Clone, Eq, PartialOrd, Ord)]
pub struct FlexPath {
    text: String,
    variant: FlexPathVariant,
}

impl PartialEq for FlexPath {
    fn eq(&self, other: &Self) -> (same: bool) {
        self.text == other.text && self.variant == other.variant
    }
}

impl vstd::std_specs::cmp::PartialEqSpecImpl for FlexPath {
    open spec fn obeys_eq_spec() -> bool {
        true
    }

    open spec fn eq_spec(&self, other: &Self) -> bool {
        self.text() == other.text() && self.dialect() == other.dialect()
    }
}

impl FlexPath {
    /// The resolved text of the path, with forward slashes between its
    /// segments.
    pub closed spec fn text(&self) -> Seq<char> {
        self.text@
    }

    /// The dialect in which the path is read.
    pub closed spec fn dialect(&self) -> FlexPathVariant {
        self.variant
    }

    /// Whether the text of the path is resolved: none of the pieces
    /// between its separators is `.` or `..`. Every path that is
    /// constructed, or derived from another by resolution, is.
    pub open spec fn is_resolved(&self) -> bool {
        dot_free(self.text())
    }

    /// Constructs a `FlexPath` with a given `variant`, resolving `path`.
    pub fn new(path: &str, variant: FlexPathVariant) -> (r: FlexPath)
        ensures
            r.text() == resolve_one_spec(path@, variant),
            r.dialect() == variant,
            r.is_resolved(),
    {
        proof {
            lemma_resolve_dot_free(path@, Seq::<char>::empty(), variant);
        }
        FlexPath { text: crate::flexible::resolve_one(path, variant), variant }
    }

    /// Constructs a `FlexPath` whose variant is `Common`, resolving `path`.
    pub fn new_common(path: &str) -> (r: FlexPath)
        ensures
            r.text() == resolve_one_spec(path@, FlexPathVariant::Common),
            r.dialect() == FlexPathVariant::Common,
            r.is_resolved(),
    {
        FlexPath::new(path, FlexPathVariant::Common)
    }

    /// Constructs a `FlexPath` whose variant is that of the target
    /// platform, resolving `path`.
    pub fn new_native(path: &str) -> (r: FlexPath)
        ensures
            r.text() == resolve_one_spec(path@, r.dialect()),
            r.is_resolved(),
    {
        FlexPath::new(path, FlexPathVariant::native())
    }

    /// Constructs a `FlexPath` from multiple paths and a given `variant`,
    /// resolving each against what came before.
    pub fn from_n(paths: &[&str], variant: FlexPathVariant) -> (r: FlexPath)
        ensures
            r.text() == resolve_n_spec(texts(paths@), variant),
            r.dialect() == variant,
            r.is_resolved(),
    {
        proof {
            lemma_resolve_n_dot_free(texts(paths@), variant);
        }
        FlexPath { text: crate::flexible::resolve_n(paths, variant), variant }
    }

    /// Constructs a `FlexPath` from multiple paths and the `Common`
    /// variant.
    pub fn from_n_common(paths: &[&str]) -> (r: FlexPath)
        ensures
            r.text() == resolve_n_spec(texts(paths@), FlexPathVariant::Common),
            r.dialect() == FlexPathVariant::Common,
            r.is_resolved(),
    {
        FlexPath::from_n(paths, FlexPathVariant::Common)
    }

    /// Constructs a `FlexPath` from multiple paths and the variant of the
    /// target platform.
    pub fn from_n_native(paths: &[&str]) -> (r: FlexPath)
        ensures
            r.text() == resolve_n_spec(texts(paths@), r.dialect()),
            r.is_resolved(),
    {
        FlexPath::from_n(paths, FlexPathVariant::native())
    }

    /// Returns the variant this `FlexPath` is based on.
    pub fn variant(&self) -> (v: FlexPathVariant)
        ensures
            v == self.dialect(),
    {
        self.variant
    }

    /// Indicates whether the `FlexPath` is absolute.
    pub fn is_absolute(&self) -> (b: bool)
        ensures
            b == is_absolute_spec(self.text(), self.dialect()),
    {
        crate::flexible::is_absolute(self.text.as_str(), self.variant)
    }

    /// Resolves `path2` against this path. An absolute `path2` is resolved
    /// alone.
    pub fn resolve(&self, path2: &str) -> (r: FlexPath)
        ensures
            r.text() == resolve_spec(self.text(), path2@, self.dialect()),
            r.dialect() == self.dialect(),
            r.is_resolved(),
    {
        proof {
            lemma_resolve_dot_free(self.text(), path2@, self.dialect());
        }
        FlexPath {
            text: crate::flexible::resolve(self.text.as_str(), path2, self.variant),
            variant: self.variant,
        }
    }

    /// Resolves multiple paths against this path, from first to last: the
    /// first against this path, and each of the others against what came
    /// before. With no paths the result is this path.
    pub fn resolve_n(&self, paths: &[&str]) -> (r: FlexPath)
        ensures
            r.text() == resolve_onto(self.text(), texts(paths@), self.dialect()),
            r.dialect() == self.dialect(),
            paths@.len() > 0 || self.is_resolved() ==> r.is_resolved(),
    {
        if paths.len() == 0 {
            return FlexPath { text: self.text.clone(), variant: self.variant };
        }
        let ghost all = texts(paths@);
        let mut acc = chars_of(self.text.as_str());
        let mut i: usize = 0;
        assert(all.take(0) =~= Seq::<Seq<char>>::empty());
        while i < paths.len()
            invariant
                i <= paths.len(),
                all == texts(paths@),
                acc@ == resolve_onto(self.text(), all.take(i as int), self.dialect()),
            decreases paths.len() - i,
        {
            let next = chars_of(paths[i]);
            proof {
                let now = all.take(i + 1);
                assert(now.drop_last() =~= all.take(i as int));
                assert(now.last() == next@);
            }
            acc = crate::flexible::resolve_chars(&acc, &next, self.variant);
            i += 1;
        }
        proof {
            assert(all.take(i as int) =~= all);
            lemma_resolve_dot_free(
                resolve_onto(self.text(), all.drop_last(), self.dialect()),
                all.last(),
                self.dialect(),
            );
        }
        FlexPath { text: string_of(&acc), variant: self.variant }
    }

    /// Finds the way from this path to `to_path`. Both must be absolute.
    /// It is empty when both resolve to the same path; in the Windows
    /// dialect it is the resolved `to_path` when the prefixes differ.
    pub fn relative(&self, to_path: &str) -> (r: String)
        requires
            is_absolute_spec(self.text(), self.dialect()),
            is_absolute_spec(to_path@, self.dialect()),
        ensures
            r@ == relative_spec(self.text(), to_path@, self.dialect()),
    {
        crate::flexible::relative(self.text.as_str(), to_path, self.variant)
    }

    /// Returns the text of the path as its dialect writes it: with
    /// backslashes between the segments for `Windows`, with forward
    /// slashes for `Common`.
    pub fn to_string(&self) -> (r: String)
        ensures
            r@ == rendered(self.text(), self.dialect()),
    {
        match self.variant {
            FlexPathVariant::Common => self.text.clone(),
            FlexPathVariant::Windows => {
                let chars = chars_of(self.text.as_str());
                let out = render_chars(&chars, self.variant);
                string_of(&out)
            },
        }
    }

    /// Changes the extension of the path and returns the new path. The
    /// extension gets a leading full stop if it has none, and may hold
    /// several full stops. The new text is not resolved again.
    pub fn change_extension(&self, extension: &str) -> (r: FlexPath)
        ensures
            r.text() == change_extension_spec(self.text(), extension@),
            r.dialect() == self.dialect(),
    {
        FlexPath {
            text: crate::extension::change_extension(self.text.as_str(), extension),
            variant: self.variant,
        }
    }

    /// Changes only the last extension of the path and returns the new
    /// path. The extension gets a leading full stop if it has none, and
    /// must hold no other. The new text is not resolved again.
    pub fn change_last_extension(&self, extension: &str) -> (r: FlexPath)
        requires
            is_single_extension(extension@),
        ensures
            r.text() == change_last_extension_spec(self.text(), extension@),
            r.dialect() == self.dialect(),
    {
        FlexPath {
            text: crate::extension::change_last_extension(self.text.as_str(), extension),
            variant: self.variant,
        }
    }

    /// Checks whether the path has the extension `extension`, letter case
    /// aside.
    pub fn has_extension(&self, extension: &str) -> (b: bool)
        ensures
            b == has_extension_spec(self.text(), extension@),
    {
        crate::extension::has_extension(self.text.as_str(), extension)
    }

    /// Checks whether the path has any of the extensions `extensions`,
    /// letter case aside.
    pub fn has_extensions(&self, extensions: &[&str]) -> (b: bool)
        ensures
            b == has_extensions_spec(self.text(), texts(extensions@)),
    {
        crate::extension::has_extensions(self.text.as_str(), extensions)
    }

    /// Returns the base name of the path: what follows its last forward
    /// slash.
    pub fn base_name(&self) -> (r: String)
        ensures
            r@ == base_name_spec(self.text()),
    {
        crate::extension::base_name(self.text.as_str())
    }

    /// Returns the base name of the path without its extensions, if the
    /// last of them is one of `extensions`.
    pub fn base_name_without_ext(&self, extensions: &[&str]) -> (r: String)
        ensures
            r@ == base_name_without_ext_spec(self.text(), texts(extensions@)),
    {
        crate::extension::base_name_without_ext(self.text.as_str(), extensions)
    }

    /// Returns the path, as its dialect writes it, for use with the file
    /// system: the path of the standard library that holds the text which
    /// `to_string` gives.
    pub fn to_path_buf(&self) -> (r: std::path::PathBuf)
        ensures
            r == path_buf_from(rendered(self.text(), self.dialect())),
    {
        let text = self.to_string();
        path_buf_of(text.as_str())
    }
}

/// A path of the standard library that owns its text.
#[verifier::external_type_specification]
#[verifier::external_body]
pub struct ExPathBuf(std::path::PathBuf);

/// The path that `PathBuf::from` makes of a text.
pub uninterp spec fn path_buf_from(text: Seq<char>) -> std::path::PathBuf;

/// `PathBuf::from`: the path that holds `text` and nothing else. Which
/// path that is depends on the text alone.
#[verifier::external_body]
fn path_buf_of(text: &str) -> (r: std::path::PathBuf)
    ensures
        r == path_buf_from(text@),
{
    std::path::PathBuf::from(text)
}

} // verus!
