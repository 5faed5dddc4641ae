//! Canonical HTTP header-name capitalization: the name is lowercased, split
//! at every `-` or `_`, each piece gets its first character uppercased, and
//! the pieces are joined with `-` — so `x-forwarded_for` and `X-FORWARDED-FOR`
//! both become `X-Forwarded-For`.

use vstd::prelude::*;

use crate::chars::chars_to_string;
use crate::chars::str_chars;

verus! {

/// What str::to_lowercase returns for these characters; a function of the
/// characters alone.
pub uninterp spec fn lower_of(s: Seq<char>) -> Seq<char>;

/// Relies on str::to_lowercase: the lowercase equivalent of the string,
/// depending on its characters alone; an empty string stays empty.
#[verifier::external_body]
fn to_lowercase(s: &str) -> (r: String)
    ensures
        r@ == lower_of(s@),
        s@.len() == 0 ==> r@.len() == 0,
{
    s.to_lowercase()
}

/// What char::to_uppercase yields for this character; a function of the
/// character alone.
pub uninterp spec fn upper_of(c: char) -> Seq<char>;

/// Relies on char::to_uppercase: the uppercase mapping of the character as
/// one or more characters, depending on the character alone.
#[verifier::external_body]
fn char_to_uppercase(c: char) -> (r: Vec<char>)
    ensures
        r@ == upper_of(c),
        r@.len() >= 1,
{
    c.to_uppercase().collect()
}

/// The characters a header name is split at.
pub open spec fn is_word_sep(c: char) -> bool {
    c == '-' || c == '_'
}

/// The pieces of `s` between its separators; an empty `s` has the one empty
/// piece, and every separator separates two (possibly empty) pieces.
pub open spec fn split_seps(s: Seq<char>) -> Seq<Seq<char>>
    decreases s.len(),
{
    if s.len() == 0 {
        seq![Seq::<char>::empty()]
    } else if is_word_sep(s[0]) {
        seq![Seq::<char>::empty()] + split_seps(s.drop_first())
    } else {
        let rest = split_seps(s.drop_first());
        seq![seq![s[0]] + rest[0]] + rest.drop_first()
    }
}

/// One piece with its first character uppercased; an empty piece stays empty.
pub open spec fn cap_piece(piece: Seq<char>) -> Seq<char> {
    if piece.len() == 0 {
        piece
    } else {
        upper_of(piece[0]) + piece.drop_first()
    }
}

/// The pieces joined with `-`.
pub open spec fn join_dash(pieces: Seq<Seq<char>>) -> Seq<char>
    decreases pieces.len(),
{
    if pieces.len() == 0 {
        Seq::empty()
    } else if pieces.len() == 1 {
        pieces[0]
    } else {
        pieces[0] + seq!['-'] + join_dash(pieces.drop_first())
    }
}

/// The canonical form of a header name: lowercase it, split at `-` and `_`,
/// uppercase each piece's first character, and join the pieces with `-`.
pub open spec fn canonical_header(s: Seq<char>) -> Seq<char> {
    join_dash(split_seps(lower_of(s)).map_values(|piece: Seq<char>| cap_piece(piece)))
}

proof fn lemma_split_seps_len(s: Seq<char>)
    ensures
        split_seps(s).len() >= 1,
    decreases s.len(),
{
    if s.len() > 0 {
        lemma_split_seps_len(s.drop_first());
    }
}

/// How one appended character changes the split: a separator closes the
/// current last piece and opens an empty one; any other character extends
/// the last piece.
proof fn lemma_split_seps_push(s: Seq<char>, c: char)
    ensures
        split_seps(s.push(c)) == (if is_word_sep(c) {
            split_seps(s).push(Seq::<char>::empty())
        } else {
            split_seps(s).update(split_seps(s).len() - 1, split_seps(s).last().push(c))
        }),
    decreases s.len(),
{
    lemma_split_seps_len(s);
    let t = s.push(c);
    assert(t[s.len() as int] == c);
    if s.len() == 0 {
        assert(t[0] == c);
        assert(t.drop_first() =~= Seq::<char>::empty());
        assert(split_seps(Seq::<char>::empty()) == seq![Seq::<char>::empty()]);
        if is_word_sep(c) {
            assert(split_seps(t) =~~= split_seps(s).push(Seq::<char>::empty()));
        } else {
            assert(split_seps(t) =~~= split_seps(s).update(0, split_seps(s).last().push(c)));
        }
    } else {
        let s1 = s.drop_first();
        assert(t[0] == s[0]);
        assert(t.drop_first() =~= s1.push(c));
        lemma_split_seps_push(s1, c);
        lemma_split_seps_len(s1);
        let r = split_seps(s1);
        if is_word_sep(s[0]) {
            if is_word_sep(c) {
                assert(split_seps(t) =~~= split_seps(s).push(Seq::<char>::empty()));
            } else {
                assert(split_seps(t) =~~= split_seps(s).update(
                    split_seps(s).len() - 1,
                    split_seps(s).last().push(c),
                ));
            }
        } else {
            if is_word_sep(c) {
                assert(r.push(Seq::<char>::empty())[0] == r[0]);
                assert(split_seps(t) =~~= split_seps(s).push(Seq::<char>::empty()));
            } else {
                if r.len() == 1 {
                    assert(r.update(r.len() - 1, r.last().push(c))[0] == r[0].push(c));
                } else {
                    assert(r.update(r.len() - 1, r.last().push(c))[0] == r[0]);
                }
                assert(split_seps(t) =~~= split_seps(s).update(
                    split_seps(s).len() - 1,
                    split_seps(s).last().push(c),
                ));
            }
        }
    }
}

/// How one appended piece extends the join: the first piece stands alone,
/// every later one is preceded by a dash.
proof fn lemma_join_dash_push(pieces: Seq<Seq<char>>, piece: Seq<char>)
    ensures
        join_dash(pieces.push(piece)) == (if pieces.len() == 0 {
            piece
        } else {
            join_dash(pieces) + seq!['-'] + piece
        }),
    decreases pieces.len(),
{
    let t = pieces.push(piece);
    if pieces.len() == 0 {
        assert(t.len() == 1);
        assert(t[0] == piece);
    } else {
        assert(t[0] == pieces[0]);
        assert(t.drop_first() =~= pieces.drop_first().push(piece));
        lemma_join_dash_push(pieces.drop_first(), piece);
        if pieces.len() == 1 {
            assert(pieces.drop_first().len() == 0);
            assert(join_dash(t) =~= pieces[0] + seq!['-'] + piece);
            assert(join_dash(pieces) == pieces[0]);
        } else {
            assert(join_dash(t) =~= join_dash(pieces) + seq!['-'] + piece);
        }
    }
}

/// One piece with its first character uppercased, as executable characters.
fn cap_piece_chars(piece: &Vec<char>) -> (r: Vec<char>)
    ensures
        r@ == cap_piece(piece@),
{
    if piece.len() == 0 {
        let r: Vec<char> = Vec::new();
        proof {
            assert(r@ =~= cap_piece(piece@));
        }
        return r;
    }
    let mut r = char_to_uppercase(piece[0]);
    let n = piece.len();
    let mut i: usize = 1;
    while i < n
        invariant
            n == piece@.len(),
            1 <= i <= n,
            r@ == upper_of(piece@[0]) + piece@.subrange(1, i as int),
        decreases n - i,
    {
        r.push(piece[i]);
        proof {
            assert(upper_of(piece@[0]) + piece@.subrange(1, i as int + 1) =~= (upper_of(piece@[0])
                + piece@.subrange(1, i as int)).push(piece@[i as int]));
        }
        i += 1;
    }
    proof {
        assert(upper_of(piece@[0]) + piece@.subrange(1, 1) =~= upper_of(piece@[0]));
        assert(piece@.subrange(1, n as int) =~= piece@.drop_first());
    }
    r
}

/// The canonical capitalization of a header name, as `canonical_header`
/// states it: lowercased, split at `-` and `_`, each piece's first character
/// uppercased, joined with `-`.
pub fn capitalize_header_name(name: &str) -> (r: String)
    ensures
        r@ == canonical_header(name@),
{
    let lowered = to_lowercase(name);
    let cs: Vec<char> = str_chars(lowered.as_str());
    let n = cs.len();

    let mut pieces: Vec<Vec<char>> = Vec::new();
    let mut cur: Vec<char> = Vec::new();
    let mut i: usize = 0;
    proof {
        assert(cs@.subrange(0, 0) =~= Seq::<char>::empty());
        assert(pieces@.map_values(|v: Vec<char>| v@).push(cur@) =~~= split_seps(
            cs@.subrange(0, 0),
        ));
    }
    while i < n
        invariant
            n == cs@.len(),
            0 <= i <= n,
            split_seps(cs@.subrange(0, i as int)) == pieces@.map_values(|v: Vec<char>| v@).push(
                cur@,
            ),
        decreases n - i,
    {
        let ghost prefix = cs@.subrange(0, i as int);
        proof {
            lemma_split_seps_push(prefix, cs@[i as int]);
            assert(cs@.subrange(0, i as int + 1) =~= prefix.push(cs@[i as int]));
            lemma_split_seps_len(prefix);
        }
        let c = cs[i];
        if c == '-' || c == '_' {
            let finished = cur;
            let ghost old_pieces = pieces@;
            let ghost old_cur = cur@;
            pieces.push(finished);
            cur = Vec::new();
            proof {
                assert(pieces@.map_values(|v: Vec<char>| v@).push(cur@) =~~= old_pieces.map_values(
                    |v: Vec<char>| v@,
                ).push(old_cur).push(Seq::<char>::empty()));
            }
        } else {
            cur.push(c);
            proof {
                assert(pieces@.map_values(|v: Vec<char>| v@).push(cur@) =~~= split_seps(
                    prefix,
                ).update(split_seps(prefix).len() - 1, split_seps(prefix).last().push(
                    cs@[i as int],
                )));
            }
        }
        i += 1;
    }
    let last_piece = cur;
    proof {
        assert(cs@.subrange(0, n as int) =~= cs@);
    }
    let ghost parts = split_seps(cs@);
    let ghost capped = parts.map_values(|piece: Seq<char>| cap_piece(piece));

    let mut out: Vec<char> = Vec::new();
    let m = pieces.len();
    let mut k: usize = 0;
    proof {
        assert(capped.len() == m + 1);
        assert(capped.take(0) =~= Seq::<Seq<char>>::empty());
        assert(out@ =~= join_dash(capped.take(0)));
    }
    while k < m
        invariant
            m == pieces@.len(),
            0 <= k <= m,
            parts == pieces@.map_values(|v: Vec<char>| v@).push(last_piece@),
            capped == parts.map_values(|piece: Seq<char>| cap_piece(piece)),
            out@ == join_dash(capped.take(k as int)),
        decreases m - k,
    {
        proof {
            lemma_join_dash_push(capped.take(k as int), capped[k as int]);
            assert(capped.take(k as int + 1) =~= capped.take(k as int).push(capped[k as int]));
            assert(capped[k as int] == cap_piece(pieces@[k as int]@));
        }
        if k > 0 {
            out.push('-');
        }
        let mut piece = cap_piece_chars(&pieces[k]);
        out.append(&mut piece);
        proof {
            if k > 0 {
                assert(out@ =~= join_dash(capped.take(k as int)) + seq!['-'] + capped[k as int]);
            } else {
                assert(out@ =~= capped[0]);
            }
        }
        k += 1;
    }
    proof {
        lemma_join_dash_push(capped.take(m as int), capped[m as int]);
        assert(capped.take(m as int + 1) =~= capped.take(m as int).push(capped[m as int]));
        assert(capped[m as int] == cap_piece(last_piece@));
    }
    if m > 0 {
        out.push('-');
    }
    let mut piece = cap_piece_chars(&last_piece);
    out.append(&mut piece);
    proof {
        if m > 0 {
            assert(out@ =~= join_dash(capped.take(m as int)) + seq!['-'] + capped[m as int]);
        } else {
            assert(out@ =~= capped[0]);
        }
        assert(capped.take(m as int + 1) =~= capped);
    }
    chars_to_string(&out)
}

} // verus!
