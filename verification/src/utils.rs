//! Utility functions: content hashing, path cleaning, and human-readable
//! formatting of sizes and durations.

use vstd::prelude::*;

verus! {

use crate::strutil::{chars_eq, chars_to_string, str_to_chars};

/// The 32-byte SHA-256 digest of a byte sequence; it depends on the bytes
/// alone, on every machine.
pub uninterp spec fn sha256_of(data: Seq<u8>) -> Seq<u8>;

/// Relies on sha2's `Sha256` (through the `Digest` trait): the digest of the
/// whole input, 32 bytes long, a pure function of the input bytes.
#[verifier::external_body]
pub(crate) fn sha256(data: &[u8]) -> (r: Vec<u8>)
    ensures
        r@ == sha256_of(data@),
        r@.len() == 32,
{
    <sha2::Sha256 as sha2::Digest>::digest(data).to_vec()
}

/// The sixteen lowercase hexadecimal digits.
pub open spec fn hex_digit_char(d: nat) -> char {
    if d == 0 { '0' }
    else if d == 1 { '1' }
    else if d == 2 { '2' }
    else if d == 3 { '3' }
    else if d == 4 { '4' }
    else if d == 5 { '5' }
    else if d == 6 { '6' }
    else if d == 7 { '7' }
    else if d == 8 { '8' }
    else if d == 9 { '9' }
    else if d == 10 { 'a' }
    else if d == 11 { 'b' }
    else if d == 12 { 'c' }
    else if d == 13 { 'd' }
    else if d == 14 { 'e' }
    else { 'f' }
}

/// Lowercase hexadecimal encoding: two digits for each byte, in order.
pub open spec fn hex_lower(data: Seq<u8>) -> Seq<char>
    decreases data.len(),
{
    if data.len() == 0 {
        Seq::empty()
    } else {
        seq![
            hex_digit_char((data.first() >> 4) as nat),
            hex_digit_char((data.first() & 0x0f) as nat),
        ] + hex_lower(data.drop_first())
    }
}

/// Relies on `hex::encode`: lowercase hex, two digits for each byte of the
/// input, in input order.
#[verifier::external_body]
pub(crate) fn hex_encode(data: &[u8]) -> (r: String)
    ensures
        r@ == hex_lower(data@),
{
    hex::encode(data)
}

/// Generate a hash of the given content: the first 8 digest bytes of its
/// SHA-256, in lowercase hex (16 characters).
pub fn hash_content(content: &[u8]) -> (r: String)
    ensures
        r@ == hex_lower(sha256_of(content@).take(8)),
        r@.len() == 16,
{
    let digest = sha256(content);
    let mut first: Vec<u8> = Vec::new();
    let mut i: usize = 0;
    while i < 8
        invariant
            i <= 8,
            digest@.len() == 32,
            digest@ == sha256_of(content@),
            first@ == digest@.take(i as int),
        decreases 8 - i,
    {
        first.push(digest[i]);
        assert(first@ == digest@.take(i + 1));
        i = i + 1;
    }
    let r = hex_encode(first.as_slice());
    proof {
        lemma_hex_lower_len(first@);
    }
    r
}

proof fn lemma_hex_lower_len(data: Seq<u8>)
    ensures
        hex_lower(data).len() == 2 * data.len(),
    decreases data.len(),
{
    if data.len() > 0 {
        lemma_hex_lower_len(data.drop_first());
    }
}

/// Generate a hash-based filename: `{base}.{16-hex-char hash}.{ext}`.
pub fn hash_filename(base: &str, content: &[u8], ext: &str) -> (r: String)
    ensures
        r@ == base@ + seq!['.'] + hex_lower(sha256_of(content@).take(8)) + seq!['.'] + ext@,
{
    let hash = hash_content(content);
    let mut out: Vec<char> = str_to_chars(base);
    out.push('.');
    let hv = str_to_chars(hash.as_str());
    crate::strutil::push_chars(&mut out, &hv);
    out.push('.');
    let ev = str_to_chars(ext);
    crate::strutil::push_chars(&mut out, &ev);
    assert(out@ =~= base@ + seq!['.'] + hex_lower(sha256_of(content@).take(8)) + seq!['.']
        + ext@);
    chars_to_string(&out)
}

/// The relative path that leads from one path to another, as pathdiff
/// computes it; a function of the two paths alone.
pub uninterp spec fn diff_paths_of(from: Seq<char>, to: Seq<char>) -> Option<Seq<char>>;

/// Relies on `pathdiff::diff_paths`: the relative path from `from` to `to`,
/// or nothing when `to` is relative while `from` is absolute.
#[verifier::external_body]
pub fn relative_path(from: &str, to: &str) -> (r: Option<String>)
    ensures
        match r {
            Some(p) => diff_paths_of(from@, to@) == Some(p@),
            None => diff_paths_of(from@, to@) is None,
        },
{
    pathdiff::diff_paths(std::path::Path::new(to), std::path::Path::new(from)).map(
        |p| p.display().to_string(),
    )
}

/// Splitting a path at `/` separators, left to right; `cur` is the part under
/// construction and `acc` the finished parts.
pub open spec fn split_slash_rec(s: Seq<char>, i: int, cur: Seq<char>, acc: Seq<Seq<char>>) -> Seq<
    Seq<char>,
>
    decreases s.len() - i,
{
    if i < 0 || i >= s.len() {
        acc.push(cur)
    } else if s[i] == '/' {
        split_slash_rec(s, i + 1, Seq::empty(), acc.push(cur))
    } else {
        split_slash_rec(s, i + 1, cur.push(s[i]), acc)
    }
}

/// The `/`-separated parts of a path, empty parts included.
pub open spec fn split_slash(s: Seq<char>) -> Seq<Seq<char>> {
    split_slash_rec(s, 0, Seq::empty(), Seq::empty())
}

/// Dropping empty and `.` parts and letting `..` swallow the part before it.
pub open spec fn clean_parts_rec(parts: Seq<Seq<char>>, i: int, acc: Seq<Seq<char>>) -> Seq<
    Seq<char>,
>
    decreases parts.len() - i,
{
    if i < 0 || i >= parts.len() {
        acc
    } else {
        let p = parts[i];
        if p.len() == 0 || p == seq!['.'] {
            clean_parts_rec(parts, i + 1, acc)
        } else if p == seq!['.', '.'] {
            clean_parts_rec(parts, i + 1, if acc.len() > 0 { acc.drop_last() } else { acc })
        } else {
            clean_parts_rec(parts, i + 1, acc.push(p))
        }
    }
}

/// Joining parts with `/` separators.
pub open spec fn join_slash_rec(parts: Seq<Seq<char>>, i: int, acc: Seq<char>) -> Seq<char>
    decreases parts.len() - i,
{
    if i < 0 || i >= parts.len() {
        acc
    } else if i == 0 {
        join_slash_rec(parts, 1, parts[0])
    } else {
        join_slash_rec(parts, i + 1, acc + seq!['/'] + parts[i])
    }
}

/// What `clean_path` returns: the path's parts with `.`, empty parts and
/// `..`-cancelled parts removed, joined by `/`, keeping a leading `/`.
pub open spec fn clean_path_spec(s: Seq<char>) -> Seq<char> {
    let joined = join_slash_rec(clean_parts_rec(split_slash(s), 0, Seq::empty()), 0, Seq::empty());
    if s.len() > 0 && s[0] == '/' {
        seq!['/'] + joined
    } else {
        joined
    }
}

/// The view of a vector of character vectors, as a sequence of sequences.
pub open spec fn views_of(parts: Seq<Vec<char>>) -> Seq<Seq<char>> {
    parts.map_values(|v: Vec<char>| v@)
}

/// Clean a path held as characters by removing `.` and `..` components.
pub fn clean_chars(s: &Vec<char>) -> (r: Vec<char>)
    ensures
        r@ == clean_path_spec(s@),
{
    // split on '/'
    let mut parts: Vec<Vec<char>> = Vec::new();
    let mut cur: Vec<char> = Vec::new();
    assert(views_of(parts@) =~= Seq::<Seq<char>>::empty());
    let mut i: usize = 0;
    while i < s.len()
        invariant
            i <= s.len(),
            split_slash(s@) == split_slash_rec(s@, i as int, cur@, views_of(parts@)),
        decreases s.len() - i,
    {
        let ghost preparts = views_of(parts@);
        let ghost precur = cur@;
        if s[i] == '/' {
            parts.push(cur);
            cur = Vec::new();
            assert(views_of(parts@) =~= preparts.push(precur));
        } else {
            cur.push(s[i]);
        }
        i = i + 1;
    }
    let ghost preparts = views_of(parts@);
    let ghost precur = cur@;
    parts.push(cur);
    proof {
        assert(views_of(parts@) =~= preparts.push(precur));
        assert(views_of(parts@) == split_slash(s@));
    }

    // drop "." and empty parts, let ".." pop
    let ghost pm = views_of(parts@);
    let mut out: Vec<Vec<char>> = Vec::new();
    assert(views_of(out@) =~= Seq::<Seq<char>>::empty());
    let mut j: usize = 0;
    while j < parts.len()
        invariant
            j <= parts.len(),
            pm == views_of(parts@),
            clean_parts_rec(pm, 0, Seq::empty()) == clean_parts_rec(
                pm,
                j as int,
                views_of(out@),
            ),
        decreases parts.len() - j,
    {
        let p = &parts[j];
        let ghost pv = pm[j as int];
        let ghost preout = views_of(out@);
        if p.len() == 0 || (p.len() == 1 && p[0] == '.') {
            proof {
                if pv.len() == 1 {
                    assert(pv =~= seq!['.']);
                }
            }
        } else if p.len() == 2 && p[0] == '.' && p[1] == '.' {
            proof {
                assert(pv =~= seq!['.', '.']);
            }
            if out.len() > 0 {
                out.pop();
                assert(views_of(out@) =~= preout.drop_last());
            }
        } else {
            proof {
                assert(pv.len() != 0);
                if pv == seq!['.'] {
                    assert(pv.len() == 1 && pv[0] == '.');
                    assert(false);
                }
                if pv == seq!['.', '.'] {
                    assert(pv.len() == 2 && pv[0] == '.' && pv[1] == '.');
                    assert(false);
                }
            }
            let copied = copy_chars(p);
            out.push(copied);
            assert(views_of(out@) =~= preout.push(pv));
        }
        j = j + 1;
    }
    let ghost om = views_of(out@);
    proof {
        assert(clean_parts_rec(pm, 0, Seq::empty()) == om);
    }

    // join with '/'
    let mut joined: Vec<char> = Vec::new();
    let mut k: usize = 0;
    while k < out.len()
        invariant
            k <= out.len(),
            om == views_of(out@),
            k == 0 ==> joined@ == Seq::<char>::empty(),
            join_slash_rec(om, 0, Seq::empty()) == join_slash_rec(om, k as int, joined@),
        decreases out.len() - k,
    {
        let ghost prejoined = joined@;
        if k > 0 {
            joined.push('/');
        }
        crate::strutil::push_chars(&mut joined, &out[k]);
        proof {
            if k == 0 {
                assert(joined@ =~= om[0]);
            } else {
                assert(joined@ =~= prejoined + seq!['/'] + om[k as int]);
            }
        }
        k = k + 1;
    }

    let mut result: Vec<char> = Vec::new();
    let starts_slash = s.len() > 0 && s[0] == '/';
    if starts_slash {
        result.push('/');
    }
    crate::strutil::push_chars(&mut result, &joined);
    assert(result@ =~= clean_path_spec(s@));
    result
}

/// Clean a path by removing `.` and `..` components.
pub fn clean_path(path: &str) -> (r: String)
    ensures
        r@ == clean_path_spec(path@),
{
    let s = str_to_chars(path);
    let cleaned = clean_chars(&s);
    chars_to_string(&cleaned)
}

/// A copy of a character vector.
pub fn copy_chars(v: &Vec<char>) -> (r: Vec<char>)
    ensures
        r@ == v@,
{
    let mut r: Vec<char> = Vec::new();
    crate::strutil::push_chars(&mut r, v);
    r
}

/// What `path_to_module_id` returns: backslashes turned into forward slashes.
pub open spec fn module_id_spec(path: Seq<char>) -> Seq<char> {
    path.map_values(|c: char| if c == '\\' { '/' } else { c })
}

/// Convert a file path to a module ID: backslashes become forward slashes.
pub fn path_to_module_id(path: &str) -> (r: String)
    ensures
        r@ == module_id_spec(path@),
{
    let s = str_to_chars(path);
    let mut out: Vec<char> = Vec::new();
    let mut i: usize = 0;
    while i < s.len()
        invariant
            i <= s.len(),
            out@ =~= s@.take(i as int).map_values(|c: char| if c == '\\' { '/' } else { c }),
        decreases s.len() - i,
    {
        let c = s[i];
        if c == '\\' {
            out.push('/');
        } else {
            out.push(c);
        }
        i = i + 1;
        assert(out@ =~= s@.take(i as int).map_values(
            |c: char| if c == '\\' { '/' } else { c },
        ));
    }
    assert(s@.take(s.len() as int) == s@);
    chars_to_string(&out)
}

/// True iff `path` lies at or under `base`: equal, or `base` followed by `/`.
pub open spec fn is_subpath_spec(path: Seq<char>, base: Seq<char>) -> bool {
    path == base || (base.len() < path.len() && path.take(base.len() as int + 1) == base + seq!['/'])
}

/// Check if a (canonical) path is within a (canonical) base directory.
pub fn is_subpath(path: &str, base: &str) -> (r: bool)
    ensures
        r == is_subpath_spec(path@, base@),
{
    let p = str_to_chars(path);
    let b = str_to_chars(base);
    if chars_eq(&p, &b) {
        return true;
    }
    if b.len() >= p.len() {
        assert(!is_subpath_spec(path@, base@)) by {
            if is_subpath_spec(path@, base@) {
                assert(path@.take(base@.len() as int + 1).len() == base@.len() + 1);
            }
        }
        return false;
    }
    let mut i: usize = 0;
    while i < b.len()
        invariant
            i <= b.len(),
            b.len() < p.len(),
            p@ == path@,
            b@ == base@,
            forall|k: int| 0 <= k < i ==> p@[k] == b@[k],
        decreases b.len() - i,
    {
        if p[i] != b[i] {
            assert(!is_subpath_spec(path@, base@)) by {
                if path@.take(base@.len() as int + 1) == base@ + seq!['/'] {
                    assert(path@.take(base@.len() as int + 1)[i as int] == (base@ + seq!['/'])[i as int]);
                }
            }
            return false;
        }
        i = i + 1;
    }
    let sep = p[b.len()];
    proof {
        if sep == '/' {
            assert(path@.take(base@.len() as int + 1) =~= base@ + seq!['/']);
        } else {
            if path@.take(base@.len() as int + 1) == base@ + seq!['/'] {
                assert(path@.take(base@.len() as int + 1)[base@.len() as int] == '/');
            }
        }
    }
    sep == '/'
}

/// The ten decimal digits.
pub open spec fn dec_digit_char(d: nat) -> char {
    if d == 0 { '0' }
    else if d == 1 { '1' }
    else if d == 2 { '2' }
    else if d == 3 { '3' }
    else if d == 4 { '4' }
    else if d == 5 { '5' }
    else if d == 6 { '6' }
    else if d == 7 { '7' }
    else if d == 8 { '8' }
    else { '9' }
}

/// The decimal digits of `n`, most significant first.
pub open spec fn dec_str(n: nat) -> Seq<char>
    decreases n,
{
    if n < 10 {
        seq![dec_digit_char(n)]
    } else {
        dec_str(n / 10).push(dec_digit_char(n % 10))
    }
}

fn dec_digit(d: u8) -> (c: char)
    requires
        d < 10,
    ensures
        c == dec_digit_char(d as nat),
{
    if d == 0 { '0' }
    else if d == 1 { '1' }
    else if d == 2 { '2' }
    else if d == 3 { '3' }
    else if d == 4 { '4' }
    else if d == 5 { '5' }
    else if d == 6 { '6' }
    else if d == 7 { '7' }
    else if d == 8 { '8' }
    else { '9' }
}

fn dec_chars(n: u128) -> (r: Vec<char>)
    ensures
        r@ == dec_str(n as nat),
    decreases n,
{
    if n < 10 {
        let mut v: Vec<char> = Vec::new();
        v.push(dec_digit(n as u8));
        assert(v@ =~= dec_str(n as nat));
        v
    } else {
        let mut v = dec_chars(n / 10);
        v.push(dec_digit((n % 10) as u8));
        v
    }
}

/// The quotient of `num` over `den`, rounded to the nearest whole with ties
/// going to the even neighbour.
pub open spec fn round_half_even(num: nat, den: nat) -> nat {
    let q = num / den;
    let r = num % den;
    if 2 * r > den {
        q + 1
    } else if 2 * r < den {
        q
    } else if q % 2 == 0 {
        q
    } else {
        q + 1
    }
}

fn rhe_u128(num: u128, den: u128) -> (r: u128)
    requires
        0 < den <= 0x7fffffffffffffffffffffffffffffffu128,
        num < 0xffffffffffffffffffffffffffffffffu128,
    ensures
        r as nat == round_half_even(num as nat, den as nat),
{
    let q = num / den;
    let rm = num % den;
    if 2 * rm > den {
        q + 1
    } else if 2 * rm < den {
        q
    } else if q % 2 == 0 {
        q
    } else {
        q + 1
    }
}

/// A quantity over a unit divisor, printed with two decimal places,
/// rounding half to even.
pub open spec fn fixed2(value: nat, den: nat) -> Seq<char> {
    let c = round_half_even(value * 100, den);
    dec_str(c / 100) + seq!['.', dec_digit_char((c / 10) % 10), dec_digit_char(c % 10)]
}

fn fixed2_chars(value: u64, den: u64) -> (r: Vec<char>)
    requires
        den > 0,
    ensures
        r@ == fixed2(value as nat, den as nat),
{
    let num: u128 = (value as u128) * 100;
    let c = rhe_u128(num, den as u128);
    let mut out = dec_chars(c / 100);
    out.push('.');
    out.push(dec_digit(((c / 10) % 10) as u8));
    out.push(dec_digit((c % 10) as u8));
    assert(out@ =~= fixed2(value as nat, den as nat));
    out
}

/// What `format_size` prints: a two-decimal quantity in B, KB, MB or GB,
/// against the 1024-based unit sizes.
pub open spec fn format_size_spec(bytes: nat) -> Seq<char> {
    if bytes >= 1073741824 {
        fixed2(bytes, 1073741824) + seq![' ', 'G', 'B']
    } else if bytes >= 1048576 {
        fixed2(bytes, 1048576) + seq![' ', 'M', 'B']
    } else if bytes >= 1024 {
        fixed2(bytes, 1024) + seq![' ', 'K', 'B']
    } else {
        dec_str(bytes) + seq![' ', 'B']
    }
}

/// Format bytes as a human-readable size.
pub fn format_size(bytes: usize) -> (r: String)
    ensures
        r@ == format_size_spec(bytes as nat),
{
    let b: u64 = bytes as u64;
    let mut out: Vec<char>;
    if b >= 1073741824 {
        out = fixed2_chars(b, 1073741824);
        out.push(' ');
        out.push('G');
        out.push('B');
    } else if b >= 1048576 {
        out = fixed2_chars(b, 1048576);
        out.push(' ');
        out.push('M');
        out.push('B');
    } else if b >= 1024 {
        out = fixed2_chars(b, 1024);
        out.push(' ');
        out.push('K');
        out.push('B');
    } else {
        out = dec_chars(b as u128);
        out.push(' ');
        out.push('B');
    }
    assert(out@ =~= format_size_spec(bytes as nat));
    chars_to_string(&out)
}

/// What `format_duration` prints for a duration given in milliseconds:
/// minutes and seconds above a minute, two-decimal seconds above a second,
/// whole milliseconds below.
pub open spec fn format_duration_spec(millis: nat) -> Seq<char> {
    if millis >= 60000 {
        dec_str(millis / 60000) + seq!['m', ' '] + fixed2(millis % 60000, 1000) + seq!['s']
    } else if millis >= 1000 {
        fixed2(millis, 1000) + seq!['s']
    } else {
        dec_str(millis) + seq!['m', 's']
    }
}

/// Format a duration, given in milliseconds, as a human-readable string.
pub fn format_duration(millis: u64) -> (r: String)
    ensures
        r@ == format_duration_spec(millis as nat),
{
    let mut out: Vec<char>;
    if millis >= 60000 {
        out = dec_chars((millis / 60000) as u128);
        out.push('m');
        out.push(' ');
        let secs = fixed2_chars(millis % 60000, 1000);
        crate::strutil::push_chars(&mut out, &secs);
        out.push('s');
    } else if millis >= 1000 {
        out = fixed2_chars(millis, 1000);
        out.push('s');
    } else {
        out = dec_chars(millis as u128);
        out.push('m');
        out.push('s');
    }
    assert(out@ =~= format_duration_spec(millis as nat));
    chars_to_string(&out)
}

} // verus!
