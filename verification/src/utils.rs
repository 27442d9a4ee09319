//! The container id of a diagram node travels through the diagram as the
//! fractional digits of a tiny rotation: `0.001XX9` stands for id `XX`. These
//! functions read the id back from a draw.io style (`rotation=...`) or from a
//! rendered SVG transform (`rotate(...)`), and write the CSS selector that
//! finds the rendered node by it.

use vstd::prelude::*;

use crate::text::{
    lemma_find_from_hit,
    all_digits, decimal_seq, decimal_value, digit_char, has_prefix, lemma_digit_char, padded2_seq,
    padded2_string, parse_u16, parse_u16_spec, split_from, split_spec, split_str, unsigned_digits,
};

verus! {

/// The rest of the first piece that begins with `prefix`, if any: what
/// `pieces.find_map(|s| s.strip_prefix(prefix))` gives.
pub open spec fn strip_first(pieces: Seq<Seq<char>>, prefix: Seq<char>) -> Option<Seq<char>>
    decreases pieces.len(),
{
    if pieces.len() == 0 {
        None
    } else if prefix.len() <= pieces[0].len() && pieces[0].take(prefix.len() as int) == prefix {
        Some(pieces[0].skip(prefix.len() as int))
    } else {
        strip_first(pieces.drop_first(), prefix)
    }
}

/// The id that a parsed rotation number carries: a missing number counts as
/// 0, and the id is the number's tens and hundreds digits.
pub open spec fn cid_of(raw: Option<u16>) -> u16 {
    let v: u16 = match raw {
        Some(v) => v,
        None => 0,
    };
    (v % 1000) / 10
}

/// The digits after the last `.` of a rotation value, read as a number.
pub open spec fn fraction_number(value: Seq<char>) -> Option<u16> {
    parse_u16_spec(split_spec(value, "."@).last())
}

/// The container id in a draw.io style such as `...;rotation=0.001429;...`.
pub open spec fn mxfile_rotation_cid(style: Seq<char>) -> u16 {
    cid_of(
        match strip_first(split_spec(style, ";"@), "rotation="@) {
            Some(v) => fraction_number(v),
            None => None,
        },
    )
}

/// The container id in an SVG transform such as `rotate(0.001429 10 20)`.
pub open spec fn svg_rotation_cid(transform: Seq<char>) -> u16 {
    cid_of(
        match strip_first(split_spec(transform, "rotate"@), "("@) {
            Some(v) => fraction_number(split_spec(v, " "@)[0]),
            None => None,
        },
    )
}

/// The CSS selector that matches the element just before the rendered node
/// whose rotation carries `cid`.
pub open spec fn css_selector_seq(cid: nat) -> Seq<char> {
    ":has(+ g[transform*='0.001"@ + padded2_seq(cid) + "9'])"@
}

/// The rest of the first of `pieces` that begins with `prefix`.
fn strip_first_exec(pieces: &Vec<String>, prefix: &str) -> (res: Option<String>)
    ensures
        res matches Some(r) ==> strip_first(pieces@.map_values(|p: String| p@), prefix@) == Some(
            r@,
        ),
        res is None ==> strip_first(pieces@.map_values(|p: String| p@), prefix@) is None,
{
    let ghost views = pieces@.map_values(|p: String| p@);
    let n = pieces.len();
    let m = prefix.unicode_len();
    let mut i: usize = 0;
    assert(views.skip(0) =~= views);
    while i < n
        invariant
            views == pieces@.map_values(|p: String| p@),
            n == pieces@.len(),
            m == prefix@.len(),
            i <= n,
            strip_first(views, prefix@) == strip_first(views.skip(i as int), prefix@),
        decreases n - i,
    {
        let piece = &pieces[i];
        let ghost rest = views.skip(i as int);
        assert(rest[0] == piece@);
        assert(rest.drop_first() =~= views.skip(i + 1));
        if has_prefix(piece.as_str(), prefix) {
            let len = piece.as_str().unicode_len();
            let stripped = piece.as_str().substring_char(m, len).to_owned();
            assert(stripped@ =~= piece@.skip(m as int));
            return Some(stripped);
        }
        i = i + 1;
    }
    assert(views.skip(n as int).len() == 0);
    None
}

/// The number after the last `.` of `value`.
fn fraction_number_exec(value: &str) -> (res: Option<u16>)
    ensures
        res == fraction_number(value@),
{
    proof {
        reveal_strlit(".");
        crate::text::lemma_split_from_nonempty(value@, "."@, 0);
    }
    let pieces = split_str(value, ".");
    let n = pieces.len();
    proof {
        assert(pieces@.map_values(|p: String| p@).len() == n);
        assert(pieces@.map_values(|p: String| p@)[n - 1] == pieces@[n - 1]@);
    }
    parse_u16(pieces[n - 1].as_str())
}

/// The id of a parsed rotation number.
fn cid_of_exec(raw: Option<u16>) -> (res: u16)
    ensures
        res == cid_of(raw),
        res < 100,
{
    let v = match raw {
        Some(v) => v,
        None => 0,
    };
    (v % 1000) / 10
}

/// The container id that a draw.io style carries in its `rotation=` entry;
/// 0 where there is none or it does not end in digits after a `.`.
pub fn parse_cid_from_mxfile_rotation(rotation: String) -> (res: u16)
    ensures
        res == mxfile_rotation_cid(rotation@),
        res < 100,
{
    proof {
        reveal_strlit(";");
    }
    let entries = split_str(rotation.as_str(), ";");
    let raw = match strip_first_exec(&entries, "rotation=") {
        Some(value) => fraction_number_exec(value.as_str()),
        None => None,
    };
    cid_of_exec(raw)
}

/// The container id that a rendered SVG transform carries in its
/// `rotate(...)`; 0 where there is none or it does not end in digits after a
/// `.`.
pub fn parse_cid_from_svg_rotation(rotation: String) -> (res: u16)
    ensures
        res == svg_rotation_cid(rotation@),
        res < 100,
{
    proof {
        reveal_strlit("rotate");
        reveal_strlit(" ");
    }
    let pieces = split_str(rotation.as_str(), "rotate");
    let raw = match strip_first_exec(&pieces, "(") {
        Some(args) => {
            proof {
                crate::text::lemma_split_from_nonempty(args@, " "@, 0);
            }
            let words = split_str(args.as_str(), " ");
            proof {
                assert(words@.map_values(|p: String| p@)[0] == words@[0]@);
            }
            fraction_number_exec(words[0].as_str())
        },
        None => None,
    };
    cid_of_exec(raw)
}

/// The CSS selector for the element just before the rendered node that
/// carries `cid`: `:has(+ g[transform*='0.001XX9'])` with `XX` the id in at
/// least two digits.
pub fn cid_into_css_selector(cid: u16) -> (res: String)
    ensures
        res@ == css_selector_seq(cid as nat),
{
    let mut res = ":has(+ g[transform*='0.001".to_owned();
    res.append(padded2_string(cid).as_str());
    res.append("9'])");
    res
}

// ---------------------------------------------------------------------------
// The id encoding reads back
// ---------------------------------------------------------------------------

/// The rotation value that carries the id `cid`: `0.001XX9`.
pub open spec fn rotation_value_seq(cid: nat) -> Seq<char> {
    "0.001"@ + padded2_seq(cid) + "9"@
}

/// An id below 100 is written as two digits.
proof fn lemma_padded2_two_digits(cid: nat)
    requires
        cid < 100,
    ensures
        padded2_seq(cid) == seq![digit_char((cid / 10) as int), digit_char((cid % 10) as int)],
{
    if cid >= 10 {
        assert(decimal_seq(cid / 10) == seq![digit_char((cid / 10) as int)]);
        assert(decimal_seq(cid) =~= seq![digit_char((cid / 10) as int), digit_char((cid % 10) as int)]);
    }
}

/// The rotation value of `cid`, character by character, and the number after
/// its `.`.
proof fn lemma_rotation_value(cid: u16)
    requires
        cid < 100,
    ensures
        rotation_value_seq(cid as nat) == seq![
            '0',
            '.',
            '0',
            '0',
            '1',
            digit_char((cid / 10) as int),
            digit_char((cid % 10) as int),
            '9',
        ],
        fraction_number(rotation_value_seq(cid as nat)) == Some((1009 + 10 * cid) as u16),
        cid_of(fraction_number(rotation_value_seq(cid as nat))) == cid,
{
    reveal_strlit("0.001");
    reveal_strlit("9");
    reveal_strlit(".");
    lemma_padded2_two_digits(cid as nat);
    let d1 = digit_char((cid / 10) as int);
    let d2 = digit_char((cid % 10) as int);
    let v = rotation_value_seq(cid as nat);
    assert(v =~= seq!['0', '.', '0', '0', '1', d1, d2, '9']);
    assert("."@ =~= seq!['.']);
    lemma_digit_char((cid / 10) as int);
    lemma_digit_char((cid % 10) as int);
    crate::text::lemma_split_from_first_separator(v, '.', 0, 1);
    assert forall|k: int| 2 <= k < v.len() implies v[k] != '.' by {}
    crate::text::lemma_split_from_no_separator(v, '.', 2);
    let w = v.subrange(2, 8);
    assert(w =~= seq!['0', '0', '1', d1, d2, '9']);
    let pieces = split_spec(v, "."@);
    assert(pieces == seq![v.subrange(0, 1)] + seq![w]);
    assert(pieces.last() == w);
    crate::text::lemma_decimal_value_push(Seq::<char>::empty(), '0');
    assert(seq!['0'] =~= Seq::<char>::empty().push('0'));
    assert(decimal_value(Seq::<char>::empty()) == 0);
    crate::text::lemma_decimal_value_push(seq!['0'], '0');
    assert(seq!['0', '0'] =~= seq!['0'].push('0'));
    crate::text::lemma_decimal_value_push(seq!['0', '0'], '1');
    assert(seq!['0', '0', '1'] =~= seq!['0', '0'].push('1'));
    crate::text::lemma_decimal_value_push(seq!['0', '0', '1'], d1);
    assert(seq!['0', '0', '1', d1] =~= seq!['0', '0', '1'].push(d1));
    crate::text::lemma_decimal_value_push(seq!['0', '0', '1', d1], d2);
    assert(seq!['0', '0', '1', d1, d2] =~= seq!['0', '0', '1', d1].push(d2));
    crate::text::lemma_decimal_value_push(seq!['0', '0', '1', d1, d2], '9');
    assert(w =~= seq!['0', '0', '1', d1, d2].push('9'));
    assert(decimal_value(w) == 1009 + 10 * cid);
    assert(unsigned_digits(w) == w);
    assert(all_digits(w));
}

/// A draw.io style that begins with the entry `rotation=0.001XX9` (alone, or
/// followed by `;` and more entries) carries the id `XX`.
pub proof fn lemma_mxfile_rotation_roundtrip(cid: u16, tail: Seq<char>)
    requires
        cid < 100,
        tail.len() == 0 || tail[0] == ';',
    ensures
        strip_first(
            split_spec("rotation="@ + rotation_value_seq(cid as nat) + tail, ";"@),
            "rotation="@,
        ) == Some(rotation_value_seq(cid as nat)),
        mxfile_rotation_cid("rotation="@ + rotation_value_seq(cid as nat) + tail) == cid,
{
    reveal_strlit("rotation=");
    reveal_strlit(";");
    lemma_rotation_value(cid);
    let v = rotation_value_seq(cid as nat);
    let entry = "rotation="@ + v;
    let style = entry + tail;
    assert(";"@ =~= seq![';']);
    assert(entry.len() == 17);
    assert forall|k: int| 0 <= k < entry.len() implies style[k] != ';' by {
        assert(style[k] == entry[k]);
        if k >= 9 {
            assert(entry[k] == v[k - 9]);
        }
    }
    let pieces = split_spec(style, ";"@);
    if tail.len() == 0 {
        assert(style =~= entry);
        crate::text::lemma_split_from_no_separator(style, ';', 0);
        assert(style.subrange(0, style.len() as int) =~= entry);
        assert(pieces == seq![entry]);
    } else {
        assert(style[17] == ';');
        crate::text::lemma_split_from_first_separator(style, ';', 0, 17);
        assert(style.subrange(0, 17) =~= entry);
        assert(pieces[0] == entry);
    }
    assert(entry.take(9) =~= "rotation="@);
    assert(entry.skip(9) =~= v);
    assert(strip_first(pieces, "rotation="@) == Some(v));
}

/// The first piece with a prefix in two runs of pieces: in the first run if
/// there is one, else in the second.
proof fn lemma_strip_first_concat(p1: Seq<Seq<char>>, p2: Seq<Seq<char>>, prefix: Seq<char>)
    ensures
        strip_first(p1 + p2, prefix) == match strip_first(p1, prefix) {
            Some(x) => Some(x),
            None => strip_first(p2, prefix),
        },
    decreases p1.len(),
{
    if p1.len() == 0 {
        assert(p1 + p2 =~= p2);
    } else {
        assert((p1 + p2)[0] == p1[0]);
        assert((p1 + p2).drop_first() =~= p1.drop_first() + p2);
        lemma_strip_first_concat(p1.drop_first(), p2, prefix);
    }
}

/// A draw.io style whose entries before `rotation=0.001XX9` are whole
/// entries (each ended by `;`), none of them a `rotation=` entry, carries the
/// id `XX`, whatever entries follow.
pub proof fn lemma_mxfile_rotation_after_entries(pre: Seq<char>, cid: u16, tail: Seq<char>)
    requires
        cid < 100,
        tail.len() == 0 || tail[0] == ';',
        pre.len() == 0 || pre.last() == ';',
        strip_first(split_spec(pre, ";"@), "rotation="@) is None,
    ensures
        mxfile_rotation_cid(pre + "rotation="@ + rotation_value_seq(cid as nat) + tail) == cid,
{
    reveal_strlit(";");
    assert(";"@ =~= seq![';']);
    let entry = "rotation="@ + rotation_value_seq(cid as nat) + tail;
    lemma_mxfile_rotation_roundtrip(cid, tail);
    lemma_rotation_value(cid);
    assert(pre + "rotation="@ + rotation_value_seq(cid as nat) + tail =~= pre + entry);
    if pre.len() == 0 {
        assert(pre + entry =~= entry);
    } else {
        crate::text::lemma_split_concat(pre, entry, ';', 0);
        let pieces = split_spec(pre, ";"@);
        assert(pieces =~= pieces.drop_last() + seq![pieces.last()]);
        lemma_strip_first_concat(pieces.drop_last(), seq![pieces.last()], "rotation="@);
        lemma_strip_first_concat(pieces.drop_last(), split_spec(entry, ";"@), "rotation="@);
    }
}

/// A style whose first `rotation=` entry is `rotation=0.001XX9` carries the
/// id `XX`, wherever that entry stands.
pub proof fn lemma_mxfile_rotation_entry(style: Seq<char>, cid: u16)
    requires
        cid < 100,
        strip_first(split_spec(style, ";"@), "rotation="@) == Some(rotation_value_seq(cid as nat)),
    ensures
        mxfile_rotation_cid(style) == cid,
{
    lemma_rotation_value(cid);
}

/// An SVG transform `rotate(0.001XX9 ...)` carries the id `XX`, whatever
/// follows the space.
pub proof fn lemma_svg_rotation_roundtrip(cid: u16, rest: Seq<char>)
    requires
        cid < 100,
    ensures
        svg_rotation_cid("rotate("@ + rotation_value_seq(cid as nat) + " "@ + rest) == cid,
        match strip_first(
            split_spec("rotate("@ + rotation_value_seq(cid as nat) + " "@ + rest, "rotate"@).drop_first(),
            "("@,
        ) {
            Some(args) => cid_of(fraction_number(split_spec(args, " "@)[0])) == cid,
            None => false,
        },
{
    reveal_strlit("rotate(");
    reveal_strlit("rotate");
    reveal_strlit(" ");
    reveal_strlit("(");
    lemma_rotation_value(cid);
    let v = rotation_value_seq(cid as nat);
    let t = "rotate("@ + v + " "@ + rest;
    let pat = "rotate"@;
    assert(pat =~= seq!['r', 'o', 't', 'a', 't', 'e']);
    assert(" "@ =~= seq![' ']);
    assert("("@ =~= seq!['(']);
    // The transform begins with the pattern.
    assert(t.subrange(0, 6) =~= pat);
    crate::text::lemma_find_from_hit(t, pat, 0);
    assert(t[6] == '(');
    assert(t[15] == ' ');
    assert forall|k: int| 6 <= k < 16 implies t[k] != 'r' by {
        if 7 <= k < 15 {
            assert(t[k] == v[k - 7]);
        }
    }
    assert forall|k: int| 6 <= k < 16 implies !crate::text::matches_at(t, pat, k) by {
        if crate::text::matches_at(t, pat, k) {
            crate::text::lemma_matches_at_first(t, pat, k);
        }
    }
    crate::text::lemma_find_from_skip(t, pat, 6, 16);
    crate::text::lemma_find_from(t, pat, 16);
    let end: int = match crate::text::find_from(t, pat, 6) {
        Some(q) => q,
        None => t.len() as int,
    };
    assert(16 <= end <= t.len());
    let pieces = split_spec(t, pat);
    assert(pieces == seq![t.subrange(0, 0)] + split_from(t, pat, 6));
    match crate::text::find_from(t, pat, 6) {
        Some(q) => {
            assert(split_from(t, pat, 6) == seq![t.subrange(6, q)] + split_from(t, pat, q + 6));
        },
        None => {
            assert(split_from(t, pat, 6) == seq![t.subrange(6, t.len() as int)]);
        },
    }
    assert(split_from(t, pat, 6)[0] == t.subrange(6, end));
    assert(pieces[0] =~= Seq::<char>::empty());
    assert(pieces[1] == t.subrange(6, end));
    let piece = t.subrange(6, end);
    assert(piece.take(1) =~= "("@);
    assert(pieces.drop_first()[0] == piece);
    assert(strip_first(pieces, "("@) == strip_first(pieces.drop_first(), "("@));
    assert(strip_first(pieces.drop_first(), "("@) == Some(piece.skip(1)));
    let args = piece.skip(1);
    assert forall|k: int| 0 <= k < 8 implies args[k] != ' ' by {
        assert(args[k] == v[k]);
    }
    assert(args[8] == ' ');
    crate::text::lemma_split_from_first_separator(args, ' ', 0, 8);
    assert(args.subrange(0, 8) =~= v);
    assert(split_spec(args, " "@)[0] == v);
}

/// An SVG transform whose part before `rotate(0.001XX9 ...)` holds no
/// `rotate` and ends with a space (and does not begin with `(`) carries the
/// id `XX`.
pub proof fn lemma_svg_rotation_after(pre: Seq<char>, cid: u16, rest: Seq<char>)
    requires
        cid < 100,
        pre.len() == 0 || (pre.last() == ' ' && pre[0] != '('),
        forall|k: int| !crate::text::matches_at(pre, "rotate"@, k),
    ensures
        svg_rotation_cid(pre + "rotate("@ + rotation_value_seq(cid as nat) + " "@ + rest) == cid,
{
    reveal_strlit("rotate(");
    reveal_strlit("rotate");
    reveal_strlit("(");
    let pat = "rotate"@;
    assert(pat =~= seq!['r', 'o', 't', 'a', 't', 'e']);
    assert("("@ =~= seq!['(']);
    lemma_svg_rotation_roundtrip(cid, rest);
    let x = "rotate("@ + rotation_value_seq(cid as nat) + " "@ + rest;
    let t = pre + x;
    assert(pre + "rotate("@ + rotation_value_seq(cid as nat) + " "@ + rest =~= t);
    assert(x.subrange(0, 6) =~= pat);
    if pre.len() == 0 {
        assert(t =~= x);
        lemma_find_from_hit(x, pat, 0);
        assert(split_spec(x, pat) == seq![x.subrange(0, 0)] + split_from(x, pat, 6));
        assert(split_spec(x, pat)[0] =~= Seq::<char>::empty());
        assert(strip_first(split_spec(x, pat), "("@) == strip_first(split_spec(x, pat).drop_first(), "("@));
    } else {
        let n = pre.len() as int;
        assert forall|k: int| 0 <= k < n implies !crate::text::matches_at(t, pat, k) by {
            if crate::text::matches_at(t, pat, k) {
                if k + 6 <= n {
                    assert(t.subrange(k, k + 6) =~= pre.subrange(k, k + 6));
                    assert(crate::text::matches_at(pre, pat, k));
                } else {
                    assert(t.subrange(k, k + 6)[n - 1 - k] == t[n - 1]);
                    assert(t[n - 1] == ' ');
                }
            }
        }
        crate::text::lemma_find_from_skip(t, pat, 0, n);
        assert(t.subrange(n, n + 6) =~= pat);
        lemma_find_from_hit(t, pat, n);
        assert(t.subrange(0, n) =~= pre);
        assert(split_spec(t, pat) == seq![pre] + split_from(t, pat, n + 6));
        crate::text::lemma_split_from_shift(pre, x, pat, 6);
        lemma_find_from_hit(x, pat, 0);
        assert(split_spec(x, pat) == seq![x.subrange(0, 0)] + split_from(x, pat, 6));
        assert(split_spec(x, pat).drop_first() =~= split_from(x, pat, 6));
        assert((seq![pre] + split_from(t, pat, n + 6)).drop_first() =~= split_from(t, pat, n + 6));
        assert(!(1 <= pre.len() && pre.take(1) == "("@)) by {
            if 1 <= pre.len() && pre.take(1) == "("@ {
                assert(pre.take(1)[0] == pre[0]);
            }
        }
        assert(strip_first(split_spec(t, pat), "("@) == strip_first(split_spec(t, pat).drop_first(), "("@));
    }
}

/// The selector for `cid` finds the rendered node whose transform holds the
/// rotation value of `cid`.
pub proof fn lemma_selector_holds_rotation_value(cid: u16)
    ensures
        css_selector_seq(cid as nat) == ":has(+ g[transform*='"@ + rotation_value_seq(cid as nat)
            + "'])"@,
{
    reveal_strlit(":has(+ g[transform*='0.001");
    reveal_strlit(":has(+ g[transform*='");
    reveal_strlit("0.001");
    reveal_strlit("9'])");
    reveal_strlit("9");
    reveal_strlit("'])");
    assert(css_selector_seq(cid as nat) =~= ":has(+ g[transform*='"@ + rotation_value_seq(cid as nat)
        + "'])"@);
}

} // verus!
