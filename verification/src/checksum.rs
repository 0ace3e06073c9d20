//! Reading a `sha256sum` file.
//!
//! The format is one `<64 hex digits>  <file name>` per line. The line whose
//! name matches is taken; a file with a single line is taken whatever its
//! name says (a `.sha256` file holding one asset's digest looks like that).
use crate::text::chars_of;
use vstd::prelude::*;

verus! {

/// Unicode white space, as `char::is_whitespace` decides it.
pub open spec fn is_ws(c: char) -> bool {
    ||| c == ' '
    ||| c == '\t'
    ||| c == '\n'
    ||| c == '\u{0B}'
    ||| c == '\u{0C}'
    ||| c == '\r'
    ||| c == '\u{85}'
    ||| c == '\u{A0}'
    ||| c == '\u{1680}'
    ||| ('\u{2000}' <= c && c <= '\u{200A}')
    ||| c == '\u{2028}'
    ||| c == '\u{2029}'
    ||| c == '\u{202F}'
    ||| c == '\u{205F}'
    ||| c == '\u{3000}'
}

pub fn is_ws_exec(c: char) -> (r: bool)
    ensures
        r == is_ws(c),
{
    c == ' ' || c == '\t' || c == '\n' || c == '\u{0B}' || c == '\u{0C}' || c == '\r' || c
        == '\u{85}' || c == '\u{A0}' || c == '\u{1680}' || ('\u{2000}' <= c && c <= '\u{200A}')
        || c == '\u{2028}' || c == '\u{2029}' || c == '\u{202F}' || c == '\u{205F}' || c
        == '\u{3000}'
}

/// A line without its `\r` of a `\r\n` ending.
pub open spec fn strip_cr(l: Seq<char>) -> Seq<char> {
    if l.len() > 0 && l.last() == '\r' {
        l.drop_last()
    } else {
        l
    }
}

/// Lines finished so far, and the unfinished one, after reading `s`.
pub open spec fn line_scan(s: Seq<char>) -> (Seq<Seq<char>>, Seq<char>)
    decreases s.len(),
{
    if s.len() == 0 {
        (Seq::empty(), Seq::empty())
    } else {
        let (done, cur) = line_scan(s.drop_last());
        if s.last() == '\n' {
            (done.push(strip_cr(cur)), Seq::empty())
        } else {
            (done, cur.push(s.last()))
        }
    }
}

/// The lines of `s`, as `str::lines` gives them: split at `\n`, a `\r`
/// before it dropped, no empty line after a final `\n`.
pub open spec fn lines(s: Seq<char>) -> Seq<Seq<char>> {
    let (done, cur) = line_scan(s);
    if cur.len() > 0 {
        done.push(cur)
    } else {
        done
    }
}

/// Fields finished so far, and the unfinished one, after reading `s`.
pub open spec fn field_scan(s: Seq<char>) -> (Seq<Seq<char>>, Seq<char>)
    decreases s.len(),
{
    if s.len() == 0 {
        (Seq::empty(), Seq::empty())
    } else {
        let (done, cur) = field_scan(s.drop_last());
        if is_ws(s.last()) {
            if cur.len() > 0 {
                (done.push(cur), Seq::empty())
            } else {
                (done, cur)
            }
        } else {
            (done, cur.push(s.last()))
        }
    }
}

/// The white-space separated fields of `s`, as `str::split_whitespace`
/// gives them.
pub open spec fn fields(s: Seq<char>) -> Seq<Seq<char>> {
    let (done, cur) = field_scan(s);
    if cur.len() > 0 {
        done.push(cur)
    } else {
        done
    }
}

/// Whether a line holds nothing but white space.
pub open spec fn blank(l: Seq<char>) -> bool {
    forall|i: int| 0 <= i < l.len() ==> is_ws(#[trigger] l[i])
}

/// `t` without its leading `*` characters (the binary-mode marker).
pub open spec fn trim_stars(t: Seq<char>) -> Seq<char>
    decreases t.len(),
{
    if t.len() > 0 && t[0] == '*' {
        trim_stars(t.drop_first())
    } else {
        t
    }
}

/// Whether the second field of a line names the asset.
pub open spec fn names(l: Seq<char>, asset: Seq<char>) -> bool {
    let f = fields(l);
    let n = trim_stars(f[1]);
    f.len() > 1 && asset.len() <= n.len() && n.subrange(n.len() - asset.len(), n.len() as int)
        == asset
}

/// The value of one hexadecimal digit, if it is one.
pub open spec fn hex_val(c: char) -> Option<u8> {
    if '0' <= c && c <= '9' {
        Some((c as int - '0' as int) as u8)
    } else if 'a' <= c && c <= 'f' {
        Some((c as int - 'a' as int + 10) as u8)
    } else if 'A' <= c && c <= 'F' {
        Some((c as int - 'A' as int + 10) as u8)
    } else {
        None
    }
}

/// The byte written by two hexadecimal digits, if they are that. A digest is
/// 64 digits: a sign in their place is no digit.
pub open spec fn pair_val(a: char, b: char) -> Option<u8> {
    match (hex_val(a), hex_val(b)) {
        (Some(x), Some(y)) => Some((16 * x + y) as u8),
        _ => None,
    }
}

/// The 32 bytes written by 64 hexadecimal characters, if they are that.
pub open spec fn digest_of(hex: Seq<char>) -> Option<Seq<u8>> {
    if hex.len() == 64 && forall|i: int| 0 <= i < 32 ==> #[trigger] pair_val(hex[2 * i], hex[2 * i + 1]) is Some {
        Some(Seq::new(32, |i: int| pair_val(hex[2 * i], hex[2 * i + 1])->Some_0))
    } else {
        None
    }
}

/// The lines of `ls` that are not blank, in order.
pub open spec fn nonblank(ls: Seq<Seq<char>>) -> Seq<Seq<char>>
    decreases ls.len(),
{
    if ls.len() == 0 {
        Seq::empty()
    } else if blank(ls.last()) {
        nonblank(ls.drop_last())
    } else {
        nonblank(ls.drop_last()).push(ls.last())
    }
}

/// The non-blank lines of `body`.
pub open spec fn content_lines(body: Seq<char>) -> Seq<Seq<char>> {
    nonblank(lines(body))
}

/// The line picked for `asset`: the first that names it, else the only line.
#[verifier::opaque]
pub open spec fn picked_line(body: Seq<char>, asset: Seq<char>) -> Option<int> {
    let ls = content_lines(body);
    if exists|i: int| 0 <= i < ls.len() && names(#[trigger] ls[i], asset) {
        Some(choose|i: int| 0 <= i < ls.len() && names(ls[i], asset) && forall|j: int| 0 <= j < i ==> !names(#[trigger] ls[j], asset))
    } else if ls.len() == 1 {
        Some(0)
    } else {
        None
    }
}

/// What [`checksum_for`] finds.
pub open spec fn checksum_spec(body: Seq<char>, asset: Seq<char>) -> Option<Seq<u8>> {
    match picked_line(body, asset) {
        Some(i) => {
            let f = fields(content_lines(body)[i]);
            if f.len() > 0 {
                digest_of(f[0])
            } else {
                None
            }
        },
        None => None,
    }
}

/// The character sequences held by `v`.
pub open spec fn views(v: Seq<Vec<char>>) -> Seq<Seq<char>> {
    v.map_values(|x: Vec<char>| x@)
}

fn copy_chars(v: &Vec<char>) -> (r: Vec<char>)
    ensures
        r@ == v@,
{
    let mut r: Vec<char> = Vec::new();
    let mut i: usize = 0;
    while i < v.len()
        invariant
            i <= v@.len(),
            r@ == v@.take(i as int),
        decreases v@.len() - i,
    {
        r.push(v[i]);
        i += 1;
        proof {
            assert(r@ =~= v@.take(i as int));
        }
    }
    proof {
        assert(r@ =~= v@);
    }
    r
}

fn split_lines(body: &str) -> (r: Vec<Vec<char>>)
    ensures
        views(r@) == lines(body@),
{
    let cs = chars_of(body);
    let mut done: Vec<Vec<char>> = Vec::new();
    let mut cur: Vec<char> = Vec::new();
    let mut i: usize = 0;
    proof {
        assert(cs@.take(0) =~= Seq::<char>::empty());
        assert(views(done@) =~= Seq::<Seq<char>>::empty());
    }
    while i < cs.len()
        invariant
            i <= cs@.len(),
            cs@ == body@,
            (views(done@), cur@) == line_scan(cs@.take(i as int)),
        decreases cs@.len() - i,
    {
        let c = cs[i];
        proof {
            assert(cs@.take((i + 1) as int).drop_last() =~= cs@.take(i as int));
        }
        if c == '\n' {
            let mut line = copy_chars(&cur);
            if line.len() > 0 && line[line.len() - 1] == '\r' {
                line.pop();
            }
            let ghost before = done@;
            done.push(line);
            cur = Vec::new();
            proof {
                assert(views(done@) =~= views(before).push(strip_cr(line_scan(cs@.take(i as int)).1)));
            }
        } else {
            cur.push(c);
        }
        i += 1;
    }
    proof {
        assert(cs@.take(i as int) =~= cs@);
    }
    if cur.len() > 0 {
        let ghost before = done@;
        done.push(cur);
        proof {
            assert(views(done@) =~= views(before).push(line_scan(body@).1));
        }
    }
    done
}

fn split_fields(line: &Vec<char>) -> (r: Vec<Vec<char>>)
    ensures
        views(r@) == fields(line@),
{
    let mut done: Vec<Vec<char>> = Vec::new();
    let mut cur: Vec<char> = Vec::new();
    let mut i: usize = 0;
    proof {
        assert(line@.take(0) =~= Seq::<char>::empty());
        assert(views(done@) =~= Seq::<Seq<char>>::empty());
    }
    while i < line.len()
        invariant
            i <= line@.len(),
            (views(done@), cur@) == field_scan(line@.take(i as int)),
        decreases line@.len() - i,
    {
        let c = line[i];
        proof {
            assert(line@.take((i + 1) as int).drop_last() =~= line@.take(i as int));
        }
        if is_ws_exec(c) {
            if cur.len() > 0 {
                let ghost before = done@;
                done.push(cur);
                cur = Vec::new();
                proof {
                    assert(views(done@) =~= views(before).push(
                        field_scan(line@.take(i as int)).1,
                    ));
                }
            }
        } else {
            cur.push(c);
        }
        i += 1;
    }
    proof {
        assert(line@.take(i as int) =~= line@);
    }
    if cur.len() > 0 {
        let ghost before = done@;
        done.push(cur);
        proof {
            assert(views(done@) =~= views(before).push(field_scan(line@).1));
        }
    }
    done
}

fn is_blank(line: &Vec<char>) -> (r: bool)
    ensures
        r == blank(line@),
{
    let mut i: usize = 0;
    while i < line.len()
        invariant
            i <= line@.len(),
            forall|k: int| 0 <= k < i ==> is_ws(#[trigger] line@[k]),
        decreases line@.len() - i,
    {
        if !is_ws_exec(line[i]) {
            return false;
        }
        i += 1;
    }
    true
}

fn content_of(body: &str) -> (r: Vec<Vec<char>>)
    ensures
        views(r@) == content_lines(body@),
{
    let ls = split_lines(body);
    let mut out: Vec<Vec<char>> = Vec::new();
    let mut i: usize = 0;
    proof {
        assert(views(ls@).take(0) =~= Seq::<Seq<char>>::empty());
        assert(views(out@) =~= Seq::<Seq<char>>::empty());
    }
    while i < ls.len()
        invariant
            i <= ls@.len(),
            views(ls@) == lines(body@),
            views(out@) == nonblank(views(ls@).take(i as int)),
        decreases ls@.len() - i,
    {
        proof {
            assert(views(ls@).take((i + 1) as int).drop_last() =~= views(ls@).take(i as int));
            assert(views(ls@).take((i + 1) as int).last() == ls@[i as int]@);
        }
        if !is_blank(&ls[i]) {
            let ghost before = out@;
            out.push(copy_chars(&ls[i]));
            proof {
                assert(views(out@) =~= views(before).push(ls@[i as int]@));
            }
        }
        i += 1;
    }
    proof {
        assert(views(ls@).take(i as int) =~= views(ls@));
    }
    out
}

fn ends_with_chars(s: &Vec<char>, from: usize, suffix: &Vec<char>) -> (r: bool)
    requires
        from <= s@.len(),
    ensures
        r == ({
            let n = s@.skip(from as int);
            suffix@.len() <= n.len() && n.subrange(n.len() - suffix@.len(), n.len() as int)
                == suffix@
        }),
{
    let slen = s.len();
    let n = slen - from;
    if suffix.len() > n {
        return false;
    }
    let base = s.len() - suffix.len();
    let mut i: usize = 0;
    while i < suffix.len()
        invariant
            i <= suffix@.len(),
            from <= s@.len() <= usize::MAX,
            suffix@.len() <= s@.len() - from,
            base + suffix@.len() == s@.len(),
            forall|k: int| 0 <= k < i ==> s@[base + k] == #[trigger] suffix@[k],
        decreases suffix@.len() - i,
    {
        if s[base + i] != suffix[i] {
            proof {
                let m = s@.skip(from as int);
                assert(m.subrange(m.len() - suffix@.len(), m.len() as int)[i as int] == s@[base
                    + i]);
            }
            return false;
        }
        i += 1;
    }
    proof {
        let m = s@.skip(from as int);
        assert(m.subrange(m.len() - suffix@.len(), m.len() as int) =~= suffix@);
    }
    true
}

fn names_asset(line: &Vec<char>, asset: &Vec<char>) -> (r: bool)
    ensures
        r == names(line@, asset@),
{
    let f = split_fields(line);
    if f.len() < 2 {
        return false;
    }
    let t = &f[1];
    let mut k: usize = 0;
    proof {
        assert(t@.skip(0) =~= t@);
    }
    while k < t.len() && t[k] == '*'
        invariant
            k <= t@.len(),
            trim_stars(t@) == trim_stars(t@.skip(k as int)),
        decreases t@.len() - k,
    {
        proof {
            assert(t@.skip(k as int).drop_first() =~= t@.skip(k + 1));
        }
        k += 1;
    }
    proof {
        assert(trim_stars(t@.skip(k as int)) == t@.skip(k as int));
        assert(views(f@)[1] == t@);
    }
    ends_with_chars(t, k, asset)
}

fn hex_digit(c: char) -> (r: Option<u8>)
    ensures
        r == hex_val(c),
{
    if '0' <= c && c <= '9' {
        Some(((c as u32) - ('0' as u32)) as u8)
    } else if 'a' <= c && c <= 'f' {
        Some(((c as u32) - ('a' as u32) + 10) as u8)
    } else if 'A' <= c && c <= 'F' {
        Some(((c as u32) - ('A' as u32) + 10) as u8)
    } else {
        None
    }
}

fn parse_pair(a: char, b: char) -> (r: Option<u8>)
    ensures
        r == pair_val(a, b),
{
    match (hex_digit(a), hex_digit(b)) {
        (Some(x), Some(y)) => Some(16 * x + y),
        _ => None,
    }
}

fn parse_digest(hex: &Vec<char>) -> (r: Option<[u8; 32]>)
    ensures
        match r {
            Some(d) => digest_of(hex@) == Some(d@),
            None => digest_of(hex@) is None,
        },
{
    if hex.len() != 64 {
        return None;
    }
    let mut out = [0u8; 32];
    let mut i: usize = 0;
    while i < 32
        invariant
            i <= 32,
            hex@.len() == 64,
            out@.len() == 32,
            forall|k: int| 0 <= k < i ==> #[trigger] pair_val(hex@[2 * k], hex@[2 * k + 1]) == Some(
                out@[k],
            ),
        decreases 32 - i,
    {
        match parse_pair(hex[2 * i], hex[2 * i + 1]) {
            Some(v) => {
                out[i] = v;
            },
            None => {
                return None;
            },
        }
        i += 1;
    }
    proof {
        assert(out@ =~= Seq::new(32, |k: int| pair_val(hex@[2 * k], hex@[2 * k + 1])->Some_0));
    }
    Some(out)
}

proof fn lemma_picked(body: Seq<char>, asset: Seq<char>, i: int)
    requires
        0 <= i <= content_lines(body).len(),
        forall|j: int| 0 <= j < i ==> !names(#[trigger] content_lines(body)[j], asset),
        i < content_lines(body).len() ==> names(content_lines(body)[i], asset),
    ensures
        picked_line(body, asset) == if i < content_lines(body).len() {
            Some(i)
        } else if content_lines(body).len() == 1 {
            Some(0int)
        } else {
            None
        },
{
    reveal(picked_line);
    let ls = content_lines(body);
    if i < ls.len() {
        assert(0 <= i < ls.len() && names(ls[i], asset));
        let c = choose|c: int|
            0 <= c < ls.len() && names(ls[c], asset) && forall|j: int|
                0 <= j < c ==> !names(#[trigger] ls[j], asset);
        assert(0 <= c < ls.len() && names(ls[c], asset) && forall|j: int|
            0 <= j < c ==> !names(#[trigger] ls[j], asset));
        if c < i {
            assert(!names(ls[c], asset));
        }
        if c > i {
            assert(!names(ls[i], asset));
        }
    } else {
        assert(!exists|k: int| 0 <= k < ls.len() && names(#[trigger] ls[k], asset));
    }
}

/// Looks the asset's digest up in a `sha256sum` file.
///
/// None when it cannot be found, and None means the check is skipped: a
/// file whose format changed must not block writing, since what is guarded
/// against is a broken transfer, not an unfamiliar format.
pub fn checksum_for(body: &str, asset_name: &str) -> (r: Option<[u8; 32]>)
    ensures
        match r {
            Some(d) => checksum_spec(body@, asset_name@) == Some(d@),
            None => checksum_spec(body@, asset_name@) is None,
        },
{
    let ls = content_of(body);
    let asset = chars_of(asset_name);
    let mut i: usize = 0;
    while i < ls.len()
        invariant
            i <= ls@.len(),
            views(ls@) == content_lines(body@),
            asset@ == asset_name@,
            forall|j: int| 0 <= j < i ==> !names(#[trigger] views(ls@)[j], asset_name@),
        ensures
            i <= ls@.len(),
            forall|j: int| 0 <= j < i ==> !names(#[trigger] views(ls@)[j], asset_name@),
            i < ls@.len() ==> names(views(ls@)[i as int], asset_name@),
        decreases ls@.len() - i,
    {
        if names_asset(&ls[i], &asset) {
            break;
        }
        i += 1;
    }
    proof {
        lemma_picked(body@, asset_name@, i as int);
    }
    let pick: usize = if i < ls.len() {
        i
    } else if ls.len() == 1 {
        0
    } else {
        return None;
    };
    let f = split_fields(&ls[pick]);
    if f.len() == 0 {
        return None;
    }
    parse_digest(&f[0])
}

} // verus!
