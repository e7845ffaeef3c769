//! Case-insensitive path keys for the input archive's file table:
//! paths are lexically cleaned, lowercased (ASCII), separators
//! unified and a leading slash enforced, and the resulting keys must
//! be unique.

use vstd::prelude::*;
use vstd::string::*;

verus! {

/// What the lexical path cleaner returns for a given path: dots and
/// repeated separators collapsed, parent references resolved.
pub uninterp spec fn cleaned_of(s: Seq<char>) -> Seq<char>;

/// Relies on path_clean's `PathClean::clean`: a pure lexical
/// normalization of the path string, depending on its characters
/// alone.
#[verifier::external_body]
fn clean_path(s: &str) -> (r: String)
    ensures
        r@ == cleaned_of(s@),
{
    let cleaned = path_clean::PathClean::clean(std::path::Path::new(s));
    cleaned.to_string_lossy().into_owned()
}

/// One character of a path key: ASCII letters lowercased,
/// backslashes unified to slashes.
pub open spec fn norm_char(c: char) -> char {
    if c == '\\' {
        '/'
    } else if 'A' <= c <= 'Z' {
        ((c as u8) + 32) as char
    } else {
        c
    }
}

/// The key of a cleaned path: every character normalized, with a
/// leading slash enforced.
pub open spec fn spec_key_chars(s: Seq<char>) -> Seq<char> {
    let mapped = s.map_values(|c: char| norm_char(c));
    if s.len() > 0 && s[0] == '/' {
        mapped
    } else {
        seq!['/'].add(mapped)
    }
}

/// The key a path string produces.
pub open spec fn spec_key_of(s: Seq<char>) -> Seq<char> {
    spec_key_chars(cleaned_of(s))
}

/// A normalized, case-insensitive path key.
#[derive(Debug, Clone)]
pub struct PathKey {
    pub chars: Vec<char>,
}

impl PathKey {
    /// Build the key of a path: clean it lexically, then normalize
    /// case and separators and enforce the leading slash.
    pub fn from_path(path: &str) -> (r: PathKey)
        ensures
            r.chars@ == spec_key_of(path@),
    {
        let cleaned = clean_path(path);
        let cs = cleaned.as_str();
        let n = cs.unicode_len();
        let mut out: Vec<char> = Vec::new();
        if n == 0 || cs.get_char(0) != '/' {
            out.push('/');
        }
        let ghost lead = out@.len() as int;
        let mut i: usize = 0;
        while i < n
            invariant
                0 <= i <= n,
                n == cs@.len(),
                cs@ == cleaned_of(path@),
                lead == if n > 0 && cs@[0] == '/' {
                    0int
                } else {
                    1int
                },
                lead == 1 ==> out@.len() >= 1 && out@[0] == '/',
                out@.len() == lead + i,
                forall|m: int| 0 <= m < i ==> out@[lead + m] == norm_char(cs@[m]),
            decreases n - i,
        {
            let c = cs.get_char(i);
            let u = c as u32;
            let nc: char = if c == '\\' {
                '/'
            } else if 65 <= u && u <= 90 {
                proof {
                    assert(('A' <= c <= 'Z') == (65 <= c as u32 <= 90));
                }
                ((u + 32) as u8) as char
            } else {
                c
            };
            proof {
                assert(nc == norm_char(cs@[i as int]));
            }
            out.push(nc);
            i = i + 1;
        }
        proof {
            let mapped = cs@.map_values(|c: char| norm_char(c));
            if n > 0 && cs@[0] == '/' {
                assert(out@ =~= mapped);
            } else {
                assert(out@ =~= seq!['/'].add(mapped));
            }
        }
        PathKey { chars: out }
    }

    /// Character-wise key equality.
    pub fn eq_key(&self, other: &PathKey) -> (r: bool)
        ensures
            r == (self.chars@ == other.chars@),
    {
        let n = self.chars.len();
        if n != other.chars.len() {
            proof {
                assert(self.chars@.len() != other.chars@.len());
            }
            return false;
        }
        let mut i: usize = 0;
        while i < n
            invariant
                0 <= i <= n,
                n == self.chars@.len() == other.chars@.len(),
                forall|m: int| 0 <= m < i ==> self.chars@[m] == other.chars@[m],
            decreases n - i,
        {
            if *char_ref(&self.chars, i) != *char_ref(&other.chars, i) {
                return false;
            }
            i = i + 1;
        }
        proof {
            assert(self.chars@ =~= other.chars@);
        }
        true
    }
}

fn char_ref(v: &Vec<char>, k: usize) -> (r: &char)
    requires
        k < v@.len(),
    ensures
        *r == v@[k as int],
{
    &v[k]
}

/// Whether a key's final path segment carries an extension: a dot
/// after the last slash, not in first position of the segment.
pub open spec fn spec_has_extension(s: Seq<char>) -> bool {
    exists|d: int|
        0 < d < s.len() && #[trigger] s[d] == '.' && s[d - 1] != '/' && forall|m: int|
            d < m < s.len() ==> s[m] != '/'
}

fn has_extension(key: &PathKey) -> (r: bool)
    ensures
        r == spec_has_extension(key.chars@),
{
    let n = key.chars.len();
    // Find the last slash, then look for a dot after it.
    let mut last_slash: usize = 0;
    let mut seen_slash = false;
    let mut k: usize = 0;
    while k < n
        invariant
            0 <= k <= n,
            n == key.chars@.len(),
            seen_slash ==> last_slash < k && key.chars@[last_slash as int] == '/',
            forall|m: int|
                0 <= m < k && (!seen_slash || last_slash < m) ==> key.chars@[m] != '/',
        decreases n - k,
    {
        if *char_ref(&key.chars, k) == '/' {
            last_slash = k;
            seen_slash = true;
        }
        k = k + 1;
    }
    let start: usize = if seen_slash {
        last_slash + 1
    } else {
        0
    };
    let mut d: usize = start;
    let mut found = false;
    while d < n
        invariant
            start <= d <= n,
            n == key.chars@.len(),
            seen_slash ==> start == last_slash + 1 && last_slash < n && key.chars@[
                last_slash as int] == '/',
            !seen_slash ==> start == 0,
            forall|m: int| start <= m < n ==> key.chars@[m] != '/',
            found ==> spec_has_extension(key.chars@),
            !found ==> forall|m: int|
                start <= m < d ==> !(0 < m && #[trigger] key.chars@[m] == '.' && key.chars@[m
                    - 1] != '/'),
        decreases n - d,
    {
        if !found && d > 0 && *char_ref(&key.chars, d) == '.' && *char_ref(&key.chars, d - 1)
            != '/' {
            proof {
                assert(spec_has_extension(key.chars@)) by {
                    assert(key.chars@[d as int] == '.' && key.chars@[d as int - 1] != '/');
                    assert(forall|m: int| d < m < n ==> key.chars@[m] != '/');
                }
            }
            found = true;
        }
        d = d + 1;
    }
    proof {
        if !found && spec_has_extension(key.chars@) {
            let dd = choose|dd: int|
                0 < dd < key.chars@.len() && #[trigger] key.chars@[dd] == '.' && key.chars@[dd - 1]
                    != '/' && forall|m: int| dd < m < key.chars@.len() ==> key.chars@[m] != '/';
            assert(start <= dd) by {
                if seen_slash && dd <= last_slash {
                    if dd < last_slash {
                        assert(key.chars@[last_slash as int] == '/');
                        assert(false);
                    } else {
                        assert(key.chars@[dd] == '.');
                        assert(false);
                    }
                }
            }
            assert(false);
        }
    }
    found
}

/// Whether a cleaned path contains a `__MACOSX` component: the
/// eight-character archive resource-fork marker bounded by
/// separators or the string's ends.
pub open spec fn spec_has_macosx(s: Seq<char>) -> bool {
    exists|i: int|
        0 <= i && i + 8 <= s.len() && #[trigger] is_macosx_at(s, i)
}

/// The marker stands at position `i`, on component boundaries.
pub open spec fn is_macosx_at(s: Seq<char>, i: int) -> bool {
    &&& i + 8 <= s.len()
    &&& s[i] == '_' && s[i + 1] == '_' && s[i + 2] == 'M' && s[i + 3] == 'A' && s[i + 4] == 'C'
        && s[i + 5] == 'O' && s[i + 6] == 'S' && s[i + 7] == 'X'
    &&& (i == 0 || s[i - 1] == '/' || s[i - 1] == '\\')
    &&& (i + 8 == s.len() || s[i + 8] == '/' || s[i + 8] == '\\')
}

fn has_macosx(s: &str) -> (r: bool)
    ensures
        r == spec_has_macosx(s@),
{
    let n = s.unicode_len();
    if n < 8 {
        proof {
            if spec_has_macosx(s@) {
                let i = choose|i: int| 0 <= i && i + 8 <= s@.len() && #[trigger] is_macosx_at(
                    s@, i);
            }
        }
        return false;
    }
    let mut i: usize = 0;
    while i <= n - 8
        invariant
            0 <= i <= n - 7,
            8 <= n == s@.len(),
            forall|m: int| 0 <= m < i ==> !#[trigger] is_macosx_at(s@, m),
        decreases n - i,
    {
        let hit = s.get_char(i) == '_' && s.get_char(i + 1) == '_' && s.get_char(i + 2) == 'M'
            && s.get_char(i + 3) == 'A' && s.get_char(i + 4) == 'C' && s.get_char(i + 5) == 'O'
            && s.get_char(i + 6) == 'S' && s.get_char(i + 7) == 'X' && (i == 0 || s.get_char(
            i - 1) == '/' || s.get_char(i - 1) == '\\') && (i + 8 == n || s.get_char(i + 8)
            == '/' || s.get_char(i + 8) == '\\');
        if hit {
            proof {
                assert(is_macosx_at(s@, i as int));
            }
            return true;
        }
        proof {
            assert(!is_macosx_at(s@, i as int));
        }
        i = i + 1;
    }
    proof {
        if spec_has_macosx(s@) {
            let m = choose|m: int| 0 <= m && m + 8 <= s@.len() && #[trigger] is_macosx_at(s@, m);
            assert(m < i);
            assert(false);
        }
    }
    false
}

/// Whether a path enters the file table: its key carries an
/// extension and its cleaned form has no resource-fork component.
pub open spec fn spec_retained(p: Seq<char>) -> bool {
    spec_has_extension(spec_key_of(p)) && !spec_has_macosx(cleaned_of(p))
}

/// How many of the first `k` paths enter the table.
pub open spec fn spec_retained_count(paths: Seq<String>, k: int) -> int
    decreases k,
{
    if k <= 0 {
        0
    } else {
        spec_retained_count(paths, k - 1) + if spec_retained(paths[k - 1]@) {
            1int
        } else {
            0int
        }
    }
}

/// An entry of the table descends from some retained input path: it
/// stores that path's cleaned form under that path's key.
pub open spec fn entry_from(paths: Seq<String>, e: LookupEntry) -> bool {
    exists|a: int|
        0 <= a < paths.len() && e.path@ == cleaned_of((#[trigger] paths[a])@) && e.key.chars@
            == spec_key_of(paths[a]@) && spec_retained(paths[a]@)
}

/// An entry of the archive's file table: the normalized key and the
/// cleaned path it stands for.
#[derive(Debug, Clone)]
pub struct LookupEntry {
    pub key: PathKey,
    pub path: String,
}

/// Build the key-to-path table of an archive whose normalized keys
/// are known distinct: paths without an extension and paths inside a
/// resource-fork folder are skipped; every other path appears under
/// its key, exactly once.
pub fn lookup_from_paths(paths: &Vec<String>) -> (r: Vec<LookupEntry>)
    requires
        forall|a: int, b: int|
            0 <= a < b < paths@.len() && spec_retained((#[trigger] paths@[a])@) && spec_retained(
                (#[trigger] paths@[b])@) ==> spec_key_of(paths@[a]@) != spec_key_of(paths@[b]@),
    ensures
        forall|a: int, b: int|
            0 <= a < b < r@.len() ==> (#[trigger] r@[a]).key.chars@ != (#[trigger] r@[
                b]).key.chars@,
        r@.len() == spec_retained_count(paths@, paths@.len() as int),
        forall|e: int| 0 <= e < r@.len() ==> #[trigger] entry_from(paths@, r@[e]),
{
    let n = paths.len();
    let mut out: Vec<LookupEntry> = Vec::new();
    let ghost mut srcs: Seq<int> = Seq::empty();
    let mut i: usize = 0;
    while i < n
        invariant
            0 <= i <= n,
            n == paths@.len(),
            forall|a: int, b: int|
                0 <= a < b < paths@.len() && spec_retained((#[trigger] paths@[a])@)
                    && spec_retained((#[trigger] paths@[b])@) ==> spec_key_of(paths@[a]@)
                    != spec_key_of(paths@[b]@),
            srcs.len() == out@.len(),
            out@.len() == spec_retained_count(paths@, i as int),
            forall|e: int|
                0 <= e < out@.len() ==> 0 <= #[trigger] srcs[e] < i && out@[e].key.chars@
                    == spec_key_of(paths@[srcs[e]]@) && out@[e].path@ == cleaned_of(
                    paths@[srcs[e]]@) && spec_retained(paths@[srcs[e]]@),
            forall|e1: int, e2: int| 0 <= e1 < e2 < srcs.len() ==> srcs[e1] < srcs[e2],
        decreases n - i,
    {
        let p = string_ref(paths, i);
        let cleaned = clean_path(p.as_str());
        let key = PathKey::from_path(p.as_str());
        proof {
            assert(spec_retained_count(paths@, i as int + 1) == spec_retained_count(
                paths@, i as int) + if spec_retained(paths@[i as int]@) {
                1int
            } else {
                0int
            });
        }
        if has_extension(&key) && !has_macosx(cleaned.as_str()) {
            proof {
                let s2 = srcs.push(i as int);
                assert forall|e1: int, e2: int| 0 <= e1 < e2 < s2.len() implies s2[e1]
                    < s2[e2] by {
                    if e2 == s2.len() - 1 {
                        assert(s2[e2] == i as int);
                        assert(0 <= srcs[e1]);
                        assert(s2[e1] == srcs[e1] < i as int);
                    } else {
                        assert(0 <= srcs[e1] && 0 <= srcs[e2]);
                        assert(s2[e1] == srcs[e1] && s2[e2] == srcs[e2]);
                    }
                }
                srcs = s2;
            }
            out.push(LookupEntry { key, path: cleaned });
        }
        i = i + 1;
    }
    proof {
        assert forall|a: int, b: int| 0 <= a < b < out@.len() implies (#[trigger] out@[
            a]).key.chars@ != (#[trigger] out@[b]).key.chars@ by {
            assert(0 <= srcs[a] && 0 <= srcs[b]);
            assert(srcs[a] < srcs[b]);
        }
        assert forall|e: int| 0 <= e < out@.len() implies #[trigger] entry_from(
            paths@, out@[e]) by {
            let a = srcs[e];
            assert(0 <= a);
            assert(out@[e].path@ == cleaned_of((paths@[a])@) && out@[e].key.chars@ == spec_key_of(
                paths@[a]@) && spec_retained(paths@[a]@));
        }
    }
    out
}

/// Build the key-to-path table, checking key uniqueness at run time:
/// `None` exactly when two retained paths share a normalized key.
pub fn try_lookup_from_paths(paths: &Vec<String>) -> (r: Option<Vec<LookupEntry>>)
    ensures
        r matches Some(v) ==> forall|a: int, b: int|
            0 <= a < b < v@.len() ==> (#[trigger] v@[a]).key.chars@ != (#[trigger] v@[
                b]).key.chars@,
        r matches Some(v) ==> v@.len() == spec_retained_count(paths@, paths@.len() as int)
            && forall|e: int| 0 <= e < v@.len() ==> #[trigger] entry_from(paths@, v@[e]),
        r is None <==> exists|a: int, b: int|
            #![trigger paths@[a], paths@[b]]
            0 <= a < b < paths@.len() && spec_retained(paths@[a]@) && spec_retained(paths@[b]@)
                && spec_key_of(paths@[a]@) == spec_key_of(paths@[b]@),
{
    let n = paths.len();
    let mut keys: Vec<PathKey> = Vec::new();
    let mut exts: Vec<bool> = Vec::new();
    let mut i: usize = 0;
    while i < n
        invariant
            0 <= i <= n,
            n == paths@.len(),
            keys@.len() == i,
            exts@.len() == i,
            forall|a: int|
                0 <= a < i ==> (#[trigger] keys@[a]).chars@ == spec_key_of(paths@[a]@),
            forall|a: int|
                0 <= a < i ==> #[trigger] exts@[a] == spec_retained(paths@[a]@),
        decreases n - i,
    {
        let p = string_ref(paths, i);
        let cleaned = clean_path(p.as_str());
        let key = PathKey::from_path(p.as_str());
        let e = has_extension(&key) && !has_macosx(cleaned.as_str());
        keys.push(key);
        exts.push(e);
        i = i + 1;
    }
    let mut a: usize = 0;
    while a < n
        invariant
            0 <= a <= n,
            n == paths@.len(),
            keys@.len() == n,
            exts@.len() == n,
            forall|x: int|
                0 <= x < n ==> (#[trigger] keys@[x]).chars@ == spec_key_of(paths@[x]@),
            forall|x: int|
                0 <= x < n ==> #[trigger] exts@[x] == spec_retained(paths@[x]@),
            forall|x: int, y: int|
                0 <= x < y < n && x < a && spec_retained((#[trigger] paths@[x])@)
                    && spec_retained((#[trigger] paths@[y])@) ==> spec_key_of(paths@[x]@)
                    != spec_key_of(paths@[y]@),
        decreases n - a,
    {
        if *bool_at(&exts, a) {
            let mut b: usize = a + 1;
            while b < n
                invariant
                    a < b <= n,
                    a < n,
                    n == paths@.len(),
                    keys@.len() == n,
                    exts@.len() == n,
                    exts@[a as int],
                    forall|x: int|
                        0 <= x < n ==> (#[trigger] keys@[x]).chars@ == spec_key_of(paths@[x]@),
                    forall|x: int|
                        0 <= x < n ==> #[trigger] exts@[x] == spec_retained(paths@[x]@),
                    forall|y: int|
                        a < y < b && spec_retained((#[trigger] paths@[y])@) ==> spec_key_of(
                            paths@[a as int]@) != spec_key_of(paths@[y]@),
                decreases n - b,
            {
                if *bool_at(&exts, b) {
                    if key_at(&keys, a).eq_key(key_at(&keys, b)) {
                        proof {
                            assert(spec_retained(paths@[a as int]@) && spec_retained(
                                paths@[b as int]@) && spec_key_of(paths@[a as int]@)
                                == spec_key_of(paths@[b as int]@));
                        }
                        return None;
                    }
                }
                b = b + 1;
            }
        }
        a = a + 1;
    }
    proof {
        assert(!(exists|a: int, b: int|
            #![trigger paths@[a], paths@[b]]
            0 <= a < b < paths@.len() && spec_retained(paths@[a]@) && spec_retained(paths@[b]@)
                && spec_key_of(paths@[a]@) == spec_key_of(paths@[b]@))) by {
            if exists|a: int, b: int|
                #![trigger paths@[a], paths@[b]]
                0 <= a < b < paths@.len() && spec_retained(paths@[a]@) && spec_retained(
                    paths@[b]@) && spec_key_of(paths@[a]@) == spec_key_of(paths@[b]@) {
                let (a0, b0): (int, int) = choose|a0: int, b0: int|
                    #![trigger paths@[a0], paths@[b0]]
                    0 <= a0 < b0 < paths@.len() && spec_retained(paths@[a0]@) && spec_retained(
                        paths@[b0]@) && spec_key_of(paths@[a0]@) == spec_key_of(paths@[b0]@);
                assert(spec_key_of(paths@[a0]@) != spec_key_of(paths@[b0]@));
            }
        }
    }
    Some(lookup_from_paths(paths))
}

fn bool_at(v: &Vec<bool>, k: usize) -> (r: &bool)
    requires
        k < v@.len(),
    ensures
        *r == v@[k as int],
{
    &v[k]
}

fn key_at(v: &Vec<PathKey>, k: usize) -> (r: &PathKey)
    requires
        k < v@.len(),
    ensures
        *r == v@[k as int],
{
    &v[k]
}

fn string_ref(v: &Vec<String>, k: usize) -> (r: &String)
    requires
        k < v@.len(),
    ensures
        *r == v@[k as int],
{
    &v[k]
}

fn entry_ref(v: &Vec<LookupEntry>, k: usize) -> (r: &LookupEntry)
    requires
        k < v@.len(),
    ensures
        *r == v@[k as int],
{
    &v[k]
}

} // verus!
