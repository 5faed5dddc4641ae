//! Parsing of the declared address path, the whole wire protocol: a peer
//! announces itself with a path of the form `/{role}/{session_id}`, both
//! segments non-empty, where the role is `host` (waits for a partner) or
//! `client` (completes the pairing).
//!
//! The path is trimmed of leading and trailing slashes and split at the
//! remaining slashes; any shape other than exactly two segments is a protocol
//! violation, and an unrecognized role is one as well.

use vstd::prelude::*;

use crate::chars::char_vec_eq;
use crate::chars::chars_to_string;
use crate::chars::str_chars;

verus! {

/// What a declared path means, over mathematical sequences.
pub enum Route {
    /// Not exactly two segments between the slashes.
    Malformed,
    /// Two segments, but a role that is neither `host` nor `client`.
    UnknownRole,
    /// A host declaring this session token: it will wait for a partner.
    Host(Seq<char>),
    /// A client declaring this session token: it completes the pairing.
    Client(Seq<char>),
}

/// The parsed form of a declared path, as executable values.
pub enum RouteDecision {
    Malformed,
    UnknownRole,
    Host(String),
    Client(String),
}

/// The mathematical meaning of a parsed path.
pub open spec fn route_view(r: RouteDecision) -> Route {
    match r {
        RouteDecision::Malformed => Route::Malformed,
        RouteDecision::UnknownRole => Route::UnknownRole,
        RouteDecision::Host(t) => Route::Host(t@),
        RouteDecision::Client(t) => Route::Client(t@),
    }
}

/// The role segment of a waiting peer.
pub open spec fn host_label() -> Seq<char> {
    seq!['h', 'o', 's', 't']
}

/// The role segment of a pairing-completing peer.
pub open spec fn client_label() -> Seq<char> {
    seq!['c', 'l', 'i', 'e', 'n', 't']
}

/// `s` without its leading slashes.
pub open spec fn trim_start_slashes(s: Seq<char>) -> Seq<char>
    decreases s.len(),
{
    if s.len() > 0 && s[0] == '/' {
        trim_start_slashes(s.drop_first())
    } else {
        s
    }
}

/// `s` without its trailing slashes.
pub open spec fn trim_end_slashes(s: Seq<char>) -> Seq<char>
    decreases s.len(),
{
    if s.len() > 0 && s[s.len() - 1] == '/' {
        trim_end_slashes(s.drop_last())
    } else {
        s
    }
}

/// `s` without its leading and trailing slashes.
pub open spec fn trim_slashes(s: Seq<char>) -> Seq<char> {
    trim_end_slashes(trim_start_slashes(s))
}

/// The segments of `s` between its slashes; an empty `s` has the one empty
/// segment, and every slash separates two (possibly empty) segments.
pub open spec fn split_slashes(s: Seq<char>) -> Seq<Seq<char>>
    decreases s.len(),
{
    if s.len() == 0 {
        seq![Seq::<char>::empty()]
    } else if s[0] == '/' {
        seq![Seq::<char>::empty()] + split_slashes(s.drop_first())
    } else {
        let rest = split_slashes(s.drop_first());
        seq![seq![s[0]] + rest[0]] + rest.drop_first()
    }
}

/// The meaning of a declared path: trim the slashes at both ends, split at
/// the remaining ones, and require exactly a role and a session token.
pub open spec fn route_of(path: Seq<char>) -> Route {
    let parts = split_slashes(trim_slashes(path));
    if parts.len() != 2 {
        Route::Malformed
    } else if parts[0] == host_label() {
        Route::Host(parts[1])
    } else if parts[0] == client_label() {
        Route::Client(parts[1])
    } else {
        Route::UnknownRole
    }
}

proof fn lemma_split_len(s: Seq<char>)
    ensures
        split_slashes(s).len() >= 1,
    decreases s.len(),
{
    if s.len() > 0 {
        lemma_split_len(s.drop_first());
    }
}

/// How one appended character changes the split: a slash closes the current
/// last segment and opens an empty one; any other character extends the last
/// segment.
proof fn lemma_split_push(s: Seq<char>, c: char)
    ensures
        split_slashes(s.push(c)) == (if c == '/' {
            split_slashes(s).push(Seq::<char>::empty())
        } else {
            split_slashes(s).update(
                split_slashes(s).len() - 1,
                split_slashes(s).last().push(c),
            )
        }),
    decreases s.len(),
{
    lemma_split_len(s);
    let t = s.push(c);
    assert(t.len() == s.len() + 1);
    if s.len() == 0 {
        assert(t[0] == c);
        assert(t.drop_first() =~= Seq::<char>::empty());
        assert(split_slashes(Seq::<char>::empty()) == seq![Seq::<char>::empty()]);
        if c == '/' {
            assert(split_slashes(t) =~~= split_slashes(s).push(Seq::<char>::empty()));
        } else {
            assert(split_slashes(t) =~~= split_slashes(s).update(
                0,
                split_slashes(s).last().push(c),
            ));
        }
    } else {
        let s1 = s.drop_first();
        assert(t[0] == s[0]);
        assert(t.drop_first() =~= s1.push(c));
        lemma_split_push(s1, c);
        lemma_split_len(s1);
        let r = split_slashes(s1);
        if s[0] == '/' {
            if c == '/' {
                assert(split_slashes(t) =~~= split_slashes(s).push(Seq::<char>::empty()));
            } else {
                assert(split_slashes(t) =~~= split_slashes(s).update(
                    split_slashes(s).len() - 1,
                    split_slashes(s).last().push(c),
                ));
            }
        } else {
            if c == '/' {
                assert(r.push(Seq::<char>::empty())[0] == r[0]);
                assert(split_slashes(t) =~~= split_slashes(s).push(Seq::<char>::empty()));
            } else {
                if r.len() == 1 {
                    assert(r.update(r.len() - 1, r.last().push(c))[0] == r[0].push(c));
                    assert(split_slashes(t) =~~= split_slashes(s).update(
                        split_slashes(s).len() - 1,
                        split_slashes(s).last().push(c),
                    ));
                } else {
                    assert(r.update(r.len() - 1, r.last().push(c))[0] == r[0]);
                    assert(split_slashes(t) =~~= split_slashes(s).update(
                        split_slashes(s).len() - 1,
                        split_slashes(s).last().push(c),
                    ));
                }
            }
        }
    }
}

proof fn lemma_split_no_slash(s: Seq<char>)
    ensures
        forall|k: int, j: int|
            0 <= k < split_slashes(s).len() && 0 <= j < split_slashes(s)[k].len()
                ==> #[trigger] split_slashes(s)[k][j] != '/',
    decreases s.len(),
{
    if s.len() > 0 {
        let s1 = s.drop_first();
        lemma_split_no_slash(s1);
        lemma_split_len(s1);
        let p = split_slashes(s);
        let r = split_slashes(s1);
        assert forall|k: int, j: int|
            0 <= k < p.len() && 0 <= j < p[k].len() implies #[trigger] p[k][j] != '/' by {
            if s[0] == '/' {
                assert(k >= 1);
                assert(p[k] == r[k - 1]);
            } else {
                if k == 0 {
                    assert(p[0] == seq![s[0]] + r[0]);
                    if j > 0 {
                        assert(p[0][j] == r[0][j - 1]);
                    }
                } else {
                    assert(p[k] == r[k]);
                }
            }
        }
    }
}

proof fn lemma_split_last_nonempty(s: Seq<char>)
    requires
        s.len() > 0,
        s[s.len() - 1] != '/',
    ensures
        split_slashes(s).last().len() > 0,
    decreases s.len(),
{
    lemma_split_len(s);
    let p = split_slashes(s);
    if s.len() == 1 {
        assert(p.last() == seq![s[0]] + split_slashes(s.drop_first())[0]);
    } else {
        let s1 = s.drop_first();
        assert(s1[s1.len() - 1] == s[s.len() - 1]);
        lemma_split_last_nonempty(s1);
        lemma_split_len(s1);
        let r = split_slashes(s1);
        if s[0] == '/' {
            assert(p.last() == r.last());
        } else {
            if r.len() == 1 {
                assert(p.last() == seq![s[0]] + r[0]);
                assert(r[0] == r.last());
            } else {
                assert(p.last() == r.drop_first().last());
                assert(r.drop_first().last() == r.last());
            }
        }
    }
}

proof fn lemma_trim_end_last(s: Seq<char>)
    ensures
        trim_end_slashes(s).len() > 0 ==> trim_end_slashes(s)[trim_end_slashes(s).len() - 1]
            != '/',
    decreases s.len(),
{
    if s.len() > 0 && s[s.len() - 1] == '/' {
        lemma_trim_end_last(s.drop_last());
    }
}

/// The wire contract of a recognized path: the session token of a host or
/// client route is non-empty and holds no slash. (The role segment is `host`
/// or `client` outright, so it is non-empty as well.)
pub proof fn lemma_route_token_wellformed(path: Seq<char>)
    ensures
        route_of(path) matches Route::Host(t) ==> t.len() > 0 && (forall|j: int|
            0 <= j < t.len() ==> t[j] != '/'),
        route_of(path) matches Route::Client(t) ==> t.len() > 0 && (forall|j: int|
            0 <= j < t.len() ==> t[j] != '/'),
{
    let trimmed = trim_slashes(path);
    let parts = split_slashes(trimmed);
    if parts.len() == 2 {
        lemma_split_no_slash(trimmed);
        assert(trimmed.len() > 0) by {
            if trimmed.len() == 0 {
                assert(parts.len() == 1);
            }
        }
        lemma_trim_end_last(trim_start_slashes(path));
        lemma_split_last_nonempty(trimmed);
        assert(parts[1] == parts.last());
    }
}

/// Parses a declared address path. The result means exactly what `route_of`
/// says of the path's characters.
pub fn parse_path(path: &str) -> (r: RouteDecision)
    ensures
        route_view(r) == route_of(path@),
{
    let cs: Vec<char> = str_chars(path);
    let n = cs.len();

    let mut start: usize = 0;
    proof {
        assert(cs@.subrange(0, n as int) =~= cs@);
    }
    while start < n && cs[start] == '/'
        invariant
            n == cs@.len(),
            0 <= start <= n,
            trim_start_slashes(cs@) == trim_start_slashes(cs@.subrange(start as int, n as int)),
        decreases n - start,
    {
        proof {
            assert(cs@.subrange(start as int, n as int).drop_first() =~= cs@.subrange(
                start as int + 1,
                n as int,
            ));
        }
        start += 1;
    }
    proof {
        assert(trim_start_slashes(cs@) == cs@.subrange(start as int, n as int));
    }

    let mut end: usize = n;
    while end > start && cs[end - 1] == '/'
        invariant
            n == cs@.len(),
            0 <= start <= end <= n,
            trim_end_slashes(cs@.subrange(start as int, n as int)) == trim_end_slashes(
                cs@.subrange(start as int, end as int),
            ),
        decreases end,
    {
        proof {
            assert(cs@.subrange(start as int, end as int).drop_last() =~= cs@.subrange(
                start as int,
                end as int - 1,
            ));
        }
        end -= 1;
    }
    let ghost trimmed = cs@.subrange(start as int, end as int);
    proof {
        assert(trim_slashes(cs@) == trimmed);
    }

    let mut segs: Vec<Vec<char>> = Vec::new();
    let mut cur: Vec<char> = Vec::new();
    let mut i: usize = start;
    proof {
        assert(cs@.subrange(start as int, start as int) =~= Seq::<char>::empty());
        assert(segs@.map_values(|v: Vec<char>| v@).push(cur@) =~~= split_slashes(
            cs@.subrange(start as int, start as int),
        ));
    }
    while i < end
        invariant
            n == cs@.len(),
            0 <= start <= i <= end <= n,
            split_slashes(cs@.subrange(start as int, i as int)) == segs@.map_values(
                |v: Vec<char>| v@,
            ).push(cur@),
        decreases end - i,
    {
        let ghost prefix = cs@.subrange(start as int, i as int);
        proof {
            lemma_split_push(prefix, cs@[i as int]);
            assert(cs@.subrange(start as int, i as int + 1) =~= prefix.push(cs@[i as int]));
            lemma_split_len(prefix);
        }
        let c = cs[i];
        if c == '/' {
            let ghost old_segs = segs@;
            let ghost old_cur = cur@;
            let finished = cur;
            segs.push(finished);
            cur = Vec::new();
            proof {
                assert(segs@.map_values(|v: Vec<char>| v@).push(cur@) =~~= old_segs.map_values(
                    |v: Vec<char>| v@,
                ).push(old_cur).push(Seq::<char>::empty()));
            }
        } else {
            let ghost old_cur = cur@;
            cur.push(c);
            proof {
                let f = |v: Vec<char>| v@;
                assert(segs@.map_values(f).push(cur@) =~~= split_slashes(prefix).update(
                    split_slashes(prefix).len() - 1,
                    split_slashes(prefix).last().push(cs@[i as int]),
                ));
            }
        }
        i += 1;
    }
    let ghost parts = split_slashes(trimmed);
    proof {
        assert(parts == segs@.map_values(|v: Vec<char>| v@).push(cur@));
        assert(parts.len() == segs@.len() + 1);
    }

    if segs.len() != 1 {
        return RouteDecision::Malformed;
    }
    let role = &segs[0];
    let token = cur;
    proof {
        assert(parts[0] == role@);
        assert(parts[1] == token@);
    }

    let host_v: Vec<char> = vec!['h', 'o', 's', 't'];
    let client_v: Vec<char> = vec!['c', 'l', 'i', 'e', 'n', 't'];
    proof {
        assert(host_v@ =~= host_label());
        assert(client_v@ =~= client_label());
    }
    if char_vec_eq(role, &host_v) {
        RouteDecision::Host(chars_to_string(&token))
    } else if char_vec_eq(role, &client_v) {
        RouteDecision::Client(chars_to_string(&token))
    } else {
        RouteDecision::UnknownRole
    }
}

} // verus!
