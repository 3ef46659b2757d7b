//! Frame sequences: turning a path with a run of `#` placeholders into a
//! file pattern, naming the output of a frame, and checking that the beauty,
//! albedo and normal sequences have as many frames each.
use vstd::prelude::*;
use crate::image::ImageError;

verus! {

/// The run fails when an auxiliary sequence that is present differs in
/// frame count from the beauty sequence.
pub open spec fn counts_mismatch(beauty: usize, albedo: Option<usize>, normal: Option<usize>) -> bool {
    ||| (albedo matches Some(a) && a != beauty)
    ||| (normal matches Some(n) && n != beauty)
}

/// Checks the frame counts of the beauty sequence and of the albedo and
/// normal sequences, where given, before any frame is read.
pub fn check_sequence_counts(beauty: usize, albedo: Option<usize>, normal: Option<usize>) -> (r:
    Result<(), ImageError>)
    ensures
        r is Ok <==> !counts_mismatch(beauty, albedo, normal),
        r matches Err(e) ==> e == ImageError::SequenceMismatch,
{
    let albedo_differs = match albedo {
        Some(a) => a != beauty,
        None => false,
    };
    let normal_differs = match normal {
        Some(n) => n != beauty,
        None => false,
    };
    if albedo_differs || normal_differs {
        Err(ImageError::SequenceMismatch)
    } else {
        Ok(())
    }
}

/// `s` with every occurrence of a non-empty `from` replaced by `to`,
/// occurrences found left to right without overlap.
pub open spec fn replace_all(s: Seq<char>, from: Seq<char>, to: Seq<char>) -> Seq<char>
    decreases s.len(),
{
    if from.len() == 0 || s.len() < from.len() {
        s
    } else if s.subrange(0, from.len() as int) == from {
        to + replace_all(s.subrange(from.len() as int, s.len() as int), from, to)
    } else {
        seq![s[0]] + replace_all(s.subrange(1, s.len() as int), from, to)
    }
}

/// Whether `from` occurs in `s` at position `i`.
fn occurs_at(s: &Vec<char>, i: usize, from: &Vec<char>) -> (r: bool)
    requires
        i <= s.len(),
    ensures
        r == (i + from.len() <= s.len() && s@.subrange(i as int, i + from.len()) == from@),
{
    if from.len() > s.len() - i {
        return false;
    }
    let mut k: usize = 0;
    while k < from.len()
        invariant
            i + from.len() <= s.len(),
            k <= from.len(),
            forall|j: int| 0 <= j < k ==> s@[i + j] == from@[j],
        decreases from.len() - k,
    {
        if s[i + k] != from[k] {
            assert(s@.subrange(i as int, i + from.len())[k as int] != from@[k as int]);
            return false;
        }
        k = k + 1;
    }
    assert(s@.subrange(i as int, i + from.len()) =~= from@);
    true
}

/// Executable `replace_all` on character vectors.
fn replace_chars(s: &Vec<char>, from: &Vec<char>, to: &Vec<char>) -> (r: Vec<char>)
    ensures
        r@ == replace_all(s@, from@, to@),
{
    if from.len() == 0 {
        return s.clone();
    }
    let mut out: Vec<char> = Vec::new();
    let mut i: usize = 0;
    assert(s@.subrange(0, s.len() as int) =~= s@);
    assert(out@ + replace_all(s@, from@, to@) =~= replace_all(s@, from@, to@));
    while i < s.len()
        invariant
            from.len() > 0,
            i <= s.len(),
            out@ + replace_all(s@.subrange(i as int, s.len() as int), from@, to@) == replace_all(s@, from@, to@),
        decreases s.len() - i,
    {
        let ghost rest = s@.subrange(i as int, s.len() as int);
        if occurs_at(s, i, from) {
            assert(rest.subrange(0, from.len() as int) =~= s@.subrange(i as int, i + from.len()));
            assert(rest.subrange(from.len() as int, rest.len() as int) =~= s@.subrange(i + from.len(), s.len() as int));
            let mut k: usize = 0;
            let ghost before = out@;
            while k < to.len()
                invariant
                    k <= to.len(),
                    out@ == before + to@.subrange(0, k as int),
                decreases to.len() - k,
            {
                out.push(to[k]);
                assert(to@.subrange(0, k + 1) =~= to@.subrange(0, k as int).push(to@[k as int]));
                k = k + 1;
            }
            assert(to@.subrange(0, to.len() as int) =~= to@);
            assert(out@ + replace_all(s@.subrange(i + from.len(), s.len() as int), from@, to@)
                =~= before + replace_all(rest, from@, to@));
            i = i + from.len();
        } else {
            proof {
                if rest.len() >= from.len() {
                    assert(rest.subrange(0, from.len() as int) =~= s@.subrange(i as int, i + from.len()));
                }
                assert(rest.subrange(1, rest.len() as int) =~= s@.subrange(i + 1, s.len() as int));
            }
            let ghost before = out@;
            out.push(s[i]);
            proof {
                if rest.len() >= from.len() {
                    assert(out@ + replace_all(s@.subrange(i + 1, s.len() as int), from@, to@)
                        =~= before + replace_all(rest, from@, to@));
                } else {
                    assert(replace_all(rest, from@, to@) == rest);
                    assert(replace_all(s@.subrange(i + 1, s.len() as int), from@, to@) == s@.subrange(i + 1, s.len() as int));
                    assert(out@ + replace_all(s@.subrange(i + 1, s.len() as int), from@, to@)
                        =~= before + replace_all(rest, from@, to@));
                }
            }
            i = i + 1;
        }
    }
    assert(s@.subrange(s.len() as int, s.len() as int) =~= Seq::<char>::empty());
    assert(out@ + Seq::<char>::empty() =~= out@);
    out
}

/// Relies on `String::from_iter` over `&char`: the string built holds
/// exactly the given characters, in order.
#[verifier::external_body]
fn string_from_chars(chars: &Vec<char>) -> (r: String)
    ensures
        r@ == chars@,
{
    String::from_iter(chars.iter())
}

/// The characters of `s`, in order.
fn chars_of(s: &str) -> (r: Vec<char>)
    ensures
        r@ == s@,
{
    let n: usize = s.unicode_len();
    let mut out: Vec<char> = Vec::new();
    let mut i: usize = 0;
    while i < n
        invariant
            n == s@.len(),
            i <= n,
            out@ == s@.subrange(0, i as int),
        decreases n - i,
    {
        out.push(s.get_char(i));
        assert(s@.subrange(0, i + 1) =~= s@.subrange(0, i as int).push(s@[i as int]));
        i = i + 1;
    }
    assert(s@.subrange(0, n as int) =~= s@);
    out
}

/// `n` copies of `c`.
pub open spec fn repeat_char(c: char, n: nat) -> Seq<char> {
    Seq::new(n, |i: int| c)
}

fn repeat_chars(c: char, n: usize) -> (r: Vec<char>)
    ensures
        r@ == repeat_char(c, n as nat),
{
    let mut out: Vec<char> = Vec::new();
    let mut i: usize = 0;
    while i < n
        invariant
            i <= n,
            out@ == repeat_char(c, i as nat),
        decreases n - i,
    {
        out.push(c);
        assert(out@ =~= repeat_char(c, (i + 1) as nat));
        i = i + 1;
    }
    out
}

/// `i` is the position of the first `#` of `s`.
pub open spec fn is_first_hash(s: Seq<char>, i: int) -> bool {
    &&& 0 <= i < s.len()
    &&& s[i] == '#'
    &&& forall|j: int| 0 <= j < i ==> s[j] != '#'
}

/// `i` is the position of the last `#` of `s`.
pub open spec fn is_last_hash(s: Seq<char>, i: int) -> bool {
    &&& 0 <= i < s.len()
    &&& s[i] == '#'
    &&& forall|j: int| i < j < s.len() ==> s[j] != '#'
}

/// The number of characters from the first `#` of `s` to its last, both
/// included.
pub open spec fn hash_span(s: Seq<char>) -> int {
    (choose|l: int| is_last_hash(s, l)) - (choose|f: int| is_first_hash(s, f)) + 1
}

/// The file pattern of a frame sequence: where `s` holds a `#`, every run
/// of as many `#` as lie from the first to the last `#` becomes as many `?`;
/// a path without `#` names no sequence.
pub open spec fn pattern_of(s: Seq<char>) -> Option<Seq<char>> {
    if exists|i: int| 0 <= i < s.len() && s[i] == '#' {
        Some(
            replace_all(
                s,
                repeat_char('#', hash_span(s) as nat),
                repeat_char('?', hash_span(s) as nat),
            ),
        )
    } else {
        None
    }
}

/// The file pattern that matches every frame of the sequence `path`, whose
/// frame number is a run of `#`, one per digit: `beauty.####.exr` gives
/// `beauty.????.exr`. `None` for a path without `#`, which is a single file.
pub fn sequence_pattern(path: &str) -> (r: Option<String>)
    ensures
        r matches Some(p) ==> pattern_of(path@) == Some(p@),
        r is None ==> pattern_of(path@) is None,
{
    let s = chars_of(path);
    let mut first: Option<usize> = None;
    let mut last: usize = 0;
    let mut i: usize = 0;
    while i < s.len()
        invariant
            i <= s.len(),
            s@ == path@,
            first is None ==> forall|j: int| 0 <= j < i ==> s@[j] != '#',
            first matches Some(f) ==> {
                &&& f <= last < i
                &&& is_first_hash(s@, f as int)
                &&& s@[last as int] == '#'
                &&& forall|j: int| last < j < i ==> s@[j] != '#'
            },
        decreases s.len() - i,
    {
        if s[i] == '#' {
            if first.is_none() {
                first = Some(i);
            }
            last = i;
        }
        i = i + 1;
    }
    match first {
        None => {
            assert(!exists|j: int| 0 <= j < path@.len() && path@[j] == '#');
            None
        },
        Some(f) => {
            proof {
                assert(is_last_hash(s@, last as int));
                let cf = choose|x: int| is_first_hash(s@, x);
                let cl = choose|x: int| is_last_hash(s@, x);
                assert(is_first_hash(s@, cf));
                assert(is_last_hash(s@, cl));
                if cf < f {
                    assert(s@[cf] != '#');
                } else if cf > f {
                    assert(s@[f as int] != '#');
                }
                if cl < last {
                    assert(s@[last as int] != '#');
                } else if cl > last {
                    assert(s@[cl] != '#');
                }
                assert(hash_span(s@) == last - f + 1);
                assert(0 <= f < s@.len() && s@[f as int] == '#');
            }
            let n: usize = last - f + 1;
            let hashes = repeat_chars('#', n);
            let marks = repeat_chars('?', n);
            let replaced = replace_chars(&s, &hashes, &marks);
            Some(string_from_chars(&replaced))
        },
    }
}

/// The path of a frame's output: every `.exr` of `path` becomes
/// `_denoised.exr`.
pub fn denoised_path(path: &str) -> (r: String)
    ensures
        r@ == replace_all(path@, ".exr"@, "_denoised.exr"@),
{
    let s = chars_of(path);
    let from = chars_of(".exr");
    let to = chars_of("_denoised.exr");
    let replaced = replace_chars(&s, &from, &to);
    string_from_chars(&replaced)
}

} // verus!
