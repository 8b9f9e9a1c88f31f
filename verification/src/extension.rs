//! Extensions and base names of paths.

use vstd::prelude::*;
use crate::common::extend_chars;
use crate::text::{chars_of, head, string_of, tail};

verus! {

/// An extension with its leading full stop: `ext` itself where it begins
/// with one, else `ext` behind a full stop.
pub open spec fn extension_arg(ext: Seq<char>) -> Seq<char> {
    if ext.len() > 0 && ext[0] == '.' {
        ext
    } else {
        seq!['.'] + ext
    }
}

/// Whether two full stops stand side by side at index `j` of `s`.
pub open spec fn double_stop_at(s: Seq<char>, j: int) -> bool {
    s[j] == '.' && s[j + 1] == '.'
}

/// Whether `s` is a run of extensions: one or more times a full stop
/// followed by at least one character that is none.
pub open spec fn is_extension_run(s: Seq<char>) -> bool {
    &&& s.len() > 0
    &&& s[0] == '.'
    &&& s.last() != '.'
    &&& forall|j: int| 0 <= j < s.len() - 1 ==> !double_stop_at(s, j)
}

/// Whether the extensions of `path` start at index `n`: `n` is the first
/// index from which `path` is a run of extensions, or the length of `path`
/// where there is no such index.
pub open spec fn is_extension_start(path: Seq<char>, n: int) -> bool {
    &&& 0 <= n <= path.len()
    &&& n < path.len() ==> is_extension_run(path.skip(n))
    &&& forall|i: int| 0 <= i < n ==> !is_extension_run(#[trigger] path.skip(i))
}

/// The index at which the extensions of `path` start.
pub open spec fn extension_start(path: Seq<char>) -> int {
    choose|n: int| is_extension_start(path, n)
}

/// `path` with its extensions replaced by `ext`, which gets a leading full
/// stop if it has none. A path without extensions gets `ext` added.
pub open spec fn change_extension_spec(path: Seq<char>, ext: Seq<char>) -> Seq<char> {
    path.take(extension_start(path)) + extension_arg(ext)
}

/// The extensions of a path start at one index only.
pub proof fn lemma_extension_start_unique(path: Seq<char>, n: int)
    requires
        is_extension_start(path, n),
    ensures
        extension_start(path) == n,
{
    let m = extension_start(path);
    assert(is_extension_start(path, m));
    if m < n {
        assert(!is_extension_run(path.skip(m)));
        assert(path.skip(path.len() as int).len() == 0);
    } else if n < m {
        assert(!is_extension_run(path.skip(n)));
        assert(path.skip(path.len() as int).len() == 0);
    }
}

/// The extension `ext` with its leading full stop.
pub fn with_full_stop(ext: &Vec<char>) -> (r: Vec<char>)
    ensures
        r@ == extension_arg(ext@),
{
    let mut r: Vec<char> = Vec::new();
    if !(ext.len() > 0 && ext[0] == '.') {
        r.push('.');
    }
    extend_chars(&mut r, ext);
    proof {
        if ext.len() > 0 && ext[0] == '.' {
            assert(r@ =~= ext@);
        } else {
            assert(r@ =~= seq!['.'] + ext@);
        }
    }
    r
}

/// The index at which the extensions of `path` start.
pub fn find_extension_start(path: &Vec<char>) -> (n: usize)
    ensures
        n == extension_start(path@),
        is_extension_start(path@, n as int),
{
    let len = path.len();
    if len == 0 || path[len - 1] == '.' {
        proof {
            assert forall|i: int| 0 <= i < len implies !is_extension_run(
                #[trigger] path@.skip(i),
            ) by {
                assert(path@.skip(i).last() == path@[len - 1]);
            }
            lemma_extension_start_unique(path@, len as int);
        }
        return len;
    }
    let mut best: usize = len;
    let mut i: usize = len;
    let mut blocked = false;
    while i > 0 && !blocked
        invariant
            len == path.len(),
            len > 0,
            path@[len - 1] != '.',
            i <= best <= len,
            best < len ==> path@[best as int] == '.',
            forall|j: int| i <= j < best ==> path@[j] != '.',
            forall|j: int| i <= j < len - 1 ==> !double_stop_at(path@, j),
            blocked ==> i > 0 && path@[i - 1] == '.' && path@[i as int] == '.',
        decreases i + (if blocked { 0int } else { 1int }),
    {
        if path[i - 1] == '.' {
            if i < len && path[i] == '.' {
                blocked = true;
            } else {
                best = i - 1;
                i -= 1;
            }
        } else {
            i -= 1;
        }
    }
    proof {
        let n = best as int;
        if n < len {
            let s = path@.skip(n);
            assert(s.last() == path@[len - 1]);
            assert forall|j: int| 0 <= j < s.len() - 1 implies !double_stop_at(s, j) by {
                assert(!double_stop_at(path@, n + j));
                assert(s[j] == path@[n + j]);
                assert(s[j + 1] == path@[n + j + 1]);
            }
        }
        assert forall|k: int| 0 <= k < n implies !is_extension_run(#[trigger] path@.skip(k)) by {
            let s = path@.skip(k);
            if k >= i {
                assert(s[0] == path@[k]);
            } else {
                assert(blocked);
                assert(s[i - 1 - k] == path@[i - 1]);
                assert(s[i - 1 - k + 1] == path@[i as int]);
                assert(double_stop_at(s, i - 1 - k));
            }
        }
        lemma_extension_start_unique(path@, n);
    }
    best
}

/// `path` with its extensions replaced by `extension`, on characters.
pub fn change_extension_chars(path: &Vec<char>, extension: &Vec<char>) -> (r: Vec<char>)
    ensures
        r@ == change_extension_spec(path@, extension@),
{
    let n = find_extension_start(path);
    let mut r = head(path, n);
    let ext = with_full_stop(extension);
    extend_chars(&mut r, &ext);
    r
}

/// Changes the extension of `path`: everything from the first full stop
/// on from which `path` is a run of extensions is replaced by `extension`,
/// which gets a leading full stop if it has none. A path without
/// extensions gets `extension` added.
pub fn change_extension(path: &str, extension: &str) -> (r: String)
    ensures
        r@ == change_extension_spec(path@, extension@),
{
    let p = chars_of(path);
    let e = chars_of(extension);
    let r = change_extension_chars(&p, &e);
    string_of(&r)
}

/// Whether `s` is a full stop followed by at least one character, none of
/// them a line feed.
pub open spec fn is_line_tail(s: Seq<char>) -> bool {
    &&& s.len() >= 2
    &&& s[0] == '.'
    &&& forall|j: int| 1 <= j < s.len() ==> #[trigger] s[j] != '\n'
}

/// Whether the last extension of `path` starts at index `n`: `n` is the
/// first index from which `path` is a full stop followed by one or more
/// characters without a line feed, or the length of `path` where there is
/// no such index.
pub open spec fn is_tail_start(path: Seq<char>, n: int) -> bool {
    &&& 0 <= n <= path.len()
    &&& n < path.len() ==> is_line_tail(path.skip(n))
    &&& forall|i: int| 0 <= i < n ==> !is_line_tail(#[trigger] path.skip(i))
}

/// The index at which the last extension of `path` starts.
pub open spec fn tail_start(path: Seq<char>) -> int {
    choose|n: int| is_tail_start(path, n)
}

/// Whether `ext`, once it has its leading full stop, holds no other.
pub open spec fn is_single_extension(ext: Seq<char>) -> bool {
    forall|j: int| 1 <= j < extension_arg(ext).len() ==> #[trigger] extension_arg(ext)[j] != '.'
}

/// `path` with everything from its first full stop on replaced by `ext`,
/// if at least one character and no line feed follows that full stop; else
/// the same for the next full stop; and `path` with `ext` added where no
/// full stop qualifies.
pub open spec fn change_last_extension_spec(path: Seq<char>, ext: Seq<char>) -> Seq<char> {
    path.take(tail_start(path)) + extension_arg(ext)
}

/// The last extension of a path starts at one index only.
pub proof fn lemma_tail_start_unique(path: Seq<char>, n: int)
    requires
        is_tail_start(path, n),
    ensures
        tail_start(path) == n,
{
    let m = tail_start(path);
    assert(is_tail_start(path, m));
    if m < n {
        assert(!is_line_tail(path.skip(m)));
        assert(path.skip(path.len() as int).len() == 0);
    } else if n < m {
        assert(!is_line_tail(path.skip(n)));
        assert(path.skip(path.len() as int).len() == 0);
    }
}

/// The index at which the last extension of `path` starts.
pub fn find_tail_start(path: &Vec<char>) -> (n: usize)
    ensures
        n == tail_start(path@),
        is_tail_start(path@, n as int),
{
    let len = path.len();
    let mut best: usize = len;
    let mut i: usize = len;
    let mut blocked = false;
    while i > 1 && !blocked
        invariant
            len == path.len(),
            i <= len,
            len > 0 ==> i >= 1,
            forall|j: int| i <= j < len ==> path@[j] != '\n',
            best <= len,
            best < len ==> path@[best as int] == '.' && i <= best + 1 && best + 1 < len,
            forall|k: int| i <= k + 1 && k + 1 < len && k < best ==> path@[k] != '.',
            blocked ==> i >= 1 && path@[i - 1] == '\n',
        decreases i + (if blocked { 0int } else { 1int }),
    {
        if path[i - 1] == '\n' {
            blocked = true;
        } else {
            i -= 1;
            if path[i - 1] == '.' {
                best = i - 1;
            }
        }
    }
    proof {
        let n = best as int;
        if n < len {
            let s = path@.skip(n);
            assert forall|j: int| 1 <= j < s.len() implies #[trigger] s[j] != '\n' by {
                assert(s[j] == path@[n + j]);
            }
        }
        assert forall|k: int| 0 <= k < n implies !is_line_tail(#[trigger] path@.skip(k)) by {
            let s = path@.skip(k);
            if k + 1 >= len {
            } else if k + 1 >= i {
                assert(s[0] == path@[k]);
            } else {
                assert(blocked);
                assert(s[i - 1 - k] == path@[i - 1]);
            }
        }
        lemma_tail_start_unique(path@, n);
    }
    best
}

/// `path` with its last extension replaced by `extension`, on characters.
pub fn change_last_extension_chars(path: &Vec<char>, extension: &Vec<char>) -> (r: Vec<char>)
    requires
        is_single_extension(extension@),
    ensures
        r@ == change_last_extension_spec(path@, extension@),
{
    let n = find_tail_start(path);
    let mut r = head(path, n);
    let ext = with_full_stop(extension);
    extend_chars(&mut r, &ext);
    r
}

/// Changes the last extension of `path`: everything from the first full
/// stop on that is followed by at least one character and by no line feed
/// is replaced by `extension`, which gets a leading full stop if it has
/// none and must hold no other. A path without such a full stop gets
/// `extension` added.
pub fn change_last_extension(path: &str, extension: &str) -> (r: String)
    requires
        is_single_extension(extension@),
    ensures
        r@ == change_last_extension_spec(path@, extension@),
{
    let p = chars_of(path);
    let e = chars_of(extension);
    let r = change_last_extension_chars(&p, &e);
    string_of(&r)
}

/// Whether `extension`, once it has its leading full stop, holds no
/// other.
pub fn single_extension(extension: &str) -> (b: bool)
    ensures
        b == is_single_extension(extension@),
{
    let e = chars_of(extension);
    let ext = with_full_stop(&e);
    let mut j: usize = 1;
    while j < ext.len()
        invariant
            1 <= j,
            ext@ == extension_arg(extension@),
            forall|k: int| 1 <= k < j && k < ext.len() ==> ext@[k] != '.',
        decreases ext.len() - j,
    {
        if ext[j] == '.' {
            return false;
        }
        j += 1;
    }
    true
}

/// The lowercase form of a text as `str::to_lowercase` gives it.
pub uninterp spec fn lowercase(s: Seq<char>) -> Seq<char>;

/// `str::to_lowercase`: the text with each character replaced by its
/// lowercase form as Unicode defines it. The result depends on the text
/// alone.
#[verifier::external_body]
pub(crate) fn to_lower(s: &str) -> (r: String)
    ensures
        r@ == lowercase(s@),
{
    s.to_lowercase()
}

/// Whether `s` ends with `tail`.
pub open spec fn ends_with(s: Seq<char>, tail: Seq<char>) -> bool {
    tail.len() <= s.len() && s.skip(s.len() - tail.len()) == tail
}

/// Whether `path` has the extension `ext`, letter case aside.
pub open spec fn has_extension_spec(path: Seq<char>, ext: Seq<char>) -> bool {
    ends_with(lowercase(path), extension_arg(lowercase(ext)))
}

/// Whether `path` has one of the extensions `exts`, letter case aside.
pub open spec fn has_extensions_spec(path: Seq<char>, exts: Seq<Seq<char>>) -> bool {
    exists|i: int| 0 <= i < exts.len() && has_extension_spec(path, #[trigger] exts[i])
}

/// Whether `s` ends with `tail`, on characters.
pub fn ends_with_chars(s: &Vec<char>, tail: &Vec<char>) -> (b: bool)
    ensures
        b == ends_with(s@, tail@),
{
    if tail.len() > s.len() {
        return false;
    }
    let start = s.len() - tail.len();
    let mut i: usize = 0;
    while i < tail.len()
        invariant
            i <= tail.len(),
            start + tail.len() == s.len(),
            forall|j: int| 0 <= j < i ==> s@[start + j] == tail@[j],
        decreases tail.len() - i,
    {
        if s[start + i] != tail[i] {
            assert(s@.skip(start as int)[i as int] != tail@[i as int]);
            return false;
        }
        i += 1;
    }
    assert(s@.skip(start as int) =~= tail@);
    true
}

/// Whether `path` ends with `extension`, which gets a leading full stop if
/// it has none. Letter case counts.
pub fn ends_with_extension(path: &str, extension: &str) -> (b: bool)
    ensures
        b == ends_with(path@, extension_arg(extension@)),
{
    let p = chars_of(path);
    let e = chars_of(extension);
    let ext = with_full_stop(&e);
    ends_with_chars(&p, &ext)
}

/// Checks whether `path` has the extension `extension`, which gets a
/// leading full stop if it has none. Both are compared in lowercase.
pub fn has_extension(path: &str, extension: &str) -> (b: bool)
    ensures
        b == has_extension_spec(path@, extension@),
{
    let lower_path = to_lower(path);
    let lower_ext = to_lower(extension);
    ends_with_extension(lower_path.as_str(), lower_ext.as_str())
}

/// Checks whether `path` has any of the extensions `extensions`.
pub fn has_extensions(path: &str, extensions: &[&str]) -> (b: bool)
    ensures
        b == has_extensions_spec(path@, crate::common::texts(extensions@)),
{
    let ghost exts = crate::common::texts(extensions@);
    let mut i: usize = 0;
    while i < extensions.len()
        invariant
            i <= extensions.len(),
            exts == crate::common::texts(extensions@),
            forall|j: int| 0 <= j < i ==> !has_extension_spec(path@, #[trigger] exts[j]),
        decreases extensions.len() - i,
    {
        if has_extension(path, extensions[i]) {
            assert(has_extension_spec(path@, exts[i as int]));
            return true;
        }
        i += 1;
    }
    false
}

/// Whether the base name of `path` starts at index `n`: right behind the
/// last forward slash, or at 0 where there is none.
pub open spec fn is_base_start(path: Seq<char>, n: int) -> bool {
    &&& 0 <= n <= path.len()
    &&& n > 0 ==> path[n - 1] == '/'
    &&& forall|j: int| n <= j < path.len() ==> #[trigger] path[j] != '/'
}

/// The index at which the base name of `path` starts.
pub open spec fn base_start(path: Seq<char>) -> int {
    choose|n: int| is_base_start(path, n)
}

/// The base name of `path`: what follows its last forward slash, or all of
/// it where it has none.
pub open spec fn base_name_spec(path: Seq<char>) -> Seq<char> {
    path.skip(base_start(path))
}

/// The base name of a path starts at one index only.
pub proof fn lemma_base_start_unique(path: Seq<char>, n: int)
    requires
        is_base_start(path, n),
    ensures
        base_start(path) == n,
{
    let m = base_start(path);
    assert(is_base_start(path, m));
    if m < n {
        assert(path[n - 1] == '/');
    } else if n < m {
        assert(path[m - 1] == '/');
    }
}

/// The base name of `path`, on characters.
pub fn base_name_chars(path: &Vec<char>) -> (r: Vec<char>)
    ensures
        r@ == base_name_spec(path@),
{
    let mut n: usize = path.len();
    while n > 0 && path[n - 1] != '/'
        invariant
            n <= path.len(),
            forall|j: int| n <= j < path.len() ==> #[trigger] path@[j] != '/',
        decreases n,
    {
        n -= 1;
    }
    proof {
        lemma_base_start_unique(path@, n as int);
    }
    tail(path, n)
}

/// Returns the base name of `path`: what follows its last forward slash.
pub fn base_name(path: &str) -> (r: String)
    ensures
        r@ == base_name_spec(path@),
{
    let p = chars_of(path);
    let r = base_name_chars(&p);
    string_of(&r)
}

/// Whether the last full stop of `s` stands at index `j`.
pub open spec fn is_last_stop(s: Seq<char>, j: int) -> bool {
    &&& 0 <= j < s.len()
    &&& s[j] == '.'
    &&& forall|k: int| j < k < s.len() ==> #[trigger] s[k] != '.'
}

/// The index of the last full stop of `s`.
pub open spec fn last_stop(s: Seq<char>) -> int {
    choose|j: int| is_last_stop(s, j)
}

/// Whether one of `exts`, once it has its leading full stop, is `ext`.
pub open spec fn names_extension(exts: Seq<Seq<char>>, ext: Seq<char>) -> bool {
    exists|i: int| 0 <= i < exts.len() && extension_arg(#[trigger] exts[i]) == ext
}

/// `base` without its extensions, if the last of them is one of `exts`;
/// else `base` with the last of its extensions in place of them all. A
/// text without extensions stays as it is.
pub open spec fn strip_extensions(base: Seq<char>, exts: Seq<Seq<char>>) -> Seq<char> {
    let n = extension_start(base);
    if n == base.len() {
        base
    } else {
        let last = base.skip(last_stop(base));
        if names_extension(exts, last) {
            base.take(n)
        } else {
            base.take(n) + last
        }
    }
}

/// The base name of `path` with its extensions stripped as
/// `strip_extensions` says.
pub open spec fn base_name_without_ext_spec(path: Seq<char>, exts: Seq<Seq<char>>) -> Seq<char> {
    strip_extensions(base_name_spec(path), exts)
}

/// The last full stop of a text stands at one index only.
pub proof fn lemma_last_stop_unique(s: Seq<char>, j: int)
    requires
        is_last_stop(s, j),
    ensures
        last_stop(s) == j,
{
    let m = last_stop(s);
    assert(is_last_stop(s, m));
}

/// Whether one of `extensions`, once it has its leading full stop, is
/// `ext`.
fn names(extensions: &[&str], ext: &Vec<char>) -> (b: bool)
    ensures
        b == names_extension(crate::common::texts(extensions@), ext@),
{
    let ghost exts = crate::common::texts(extensions@);
    let mut i: usize = 0;
    while i < extensions.len()
        invariant
            i <= extensions.len(),
            exts == crate::common::texts(extensions@),
            forall|j: int| 0 <= j < i ==> extension_arg(#[trigger] exts[j]) != ext@,
        decreases extensions.len() - i,
    {
        let e = chars_of(extensions[i]);
        let full = with_full_stop(&e);
        if crate::common::same_chars(&full, ext) {
            assert(extension_arg(exts[i as int]) == ext@);
            return true;
        }
        i += 1;
    }
    false
}

/// `base` without its extensions, or with the last of them only, on
/// characters.
pub fn strip_extensions_chars(base: &Vec<char>, extensions: &[&str]) -> (r: Vec<char>)
    ensures
        r@ == strip_extensions(base@, crate::common::texts(extensions@)),
{
    let n = find_extension_start(base);
    if n == base.len() {
        assert(base@.take(n as int) =~= base@);
        return head(base, n);
    }
    proof {
        assert(is_extension_run(base@.skip(n as int)));
        assert(base@.skip(n as int)[0] == base@[n as int]);
    }
    let mut j: usize = base.len() - 1;
    while base[j] != '.'
        invariant
            n <= j < base.len(),
            base@[n as int] == '.',
            forall|k: int| j < k < base.len() ==> #[trigger] base@[k] != '.',
        decreases j,
    {
        j -= 1;
    }
    proof {
        lemma_last_stop_unique(base@, j as int);
    }
    let last = tail(base, j);
    let mut r = head(base, n);
    if !names(extensions, &last) {
        extend_chars(&mut r, &last);
    }
    r
}

/// Returns the base name of `path` without its extensions, if the last of
/// them is one of `extensions`, each of which gets a leading full stop if
/// it has none. Otherwise the last extension alone stays behind the name.
pub fn base_name_without_ext(path: &str, extensions: &[&str]) -> (r: String)
    ensures
        r@ == base_name_without_ext_spec(path@, crate::common::texts(extensions@)),
{
    let p = chars_of(path);
    let base = base_name_chars(&p);
    let r = strip_extensions_chars(&base, extensions);
    string_of(&r)
}

} // verus!
