use vstd::prelude::*;
use crate::error::FsError;

verus! {

/// Whether `c` separates path components; with `backslash` a backslash counts
/// as a separator too.
pub open spec fn is_separator(c: char, backslash: bool) -> bool {
    c == '/' || (backslash && c == '\\')
}

/// The pieces between separators, empty pieces included: `"a//b"` splits into
/// `["a", "", "b"]` and the empty string into `[""]`.
pub open spec fn split_pieces(s: Seq<char>, backslash: bool) -> Seq<Seq<char>>
    decreases s.len(),
{
    if s.len() == 0 {
        seq![Seq::<char>::empty()]
    } else {
        let p = split_pieces(s.drop_last(), backslash);
        if is_separator(s.last(), backslash) {
            p.push(Seq::<char>::empty())
        } else {
            p.update(p.len() - 1, p.last().push(s.last()))
        }
    }
}

/// Applies one piece to the segments resolved so far: empty pieces and `.` are
/// dropped, `..` removes the last segment (if any), anything else is appended.
pub open spec fn resolve_step(stack: Seq<Seq<char>>, piece: Seq<char>) -> Seq<Seq<char>> {
    if piece.len() == 0 || piece == seq!['.'] {
        stack
    } else if piece == seq!['.', '.'] {
        if stack.len() == 0 {
            stack
        } else {
            stack.drop_last()
        }
    } else {
        stack.push(piece)
    }
}

/// Resolves a sequence of pieces, left to right.
pub open spec fn resolve(pieces: Seq<Seq<char>>) -> Seq<Seq<char>>
    decreases pieces.len(),
{
    if pieces.len() == 0 {
        Seq::empty()
    } else {
        resolve_step(resolve(pieces.drop_last()), pieces.last())
    }
}

/// The segments of the absolute, normalized form of path `s`.
pub open spec fn normalized_segments(s: Seq<char>, backslash: bool) -> Seq<Seq<char>> {
    resolve(split_pieces(s, backslash))
}

/// Normalizes a path: an empty path is the root when `allow_empty` holds and
/// invalid input otherwise; any other path is resolved into its segments.
pub open spec fn spec_normalize(s: Seq<char>, allow_empty: bool, backslash: bool) -> Result<
    Seq<Seq<char>>,
    FsError,
> {
    if s.len() == 0 {
        if allow_empty {
            Ok(Seq::empty())
        } else {
            Err(FsError::InvalidInput)
        }
    } else {
        Ok(normalized_segments(s, backslash))
    }
}

/// A segment of a normalized path: non-empty, without `/`, and neither `.`
/// nor `..`.
pub open spec fn valid_segment(seg: Seq<char>) -> bool {
    &&& seg.len() > 0
    &&& seg != seq!['.']
    &&& seg != seq!['.', '.']
    &&& forall|i: int| 0 <= i < seg.len() ==> seg[i] != '/'
}

/// Every segment is valid.
pub open spec fn valid_segments(segs: Seq<Seq<char>>) -> bool {
    forall|i: int| 0 <= i < segs.len() ==> valid_segment(#[trigger] segs[i])
}

/// The character views of a sequence of strings.
pub open spec fn seg_views(v: Seq<String>) -> Seq<Seq<char>> {
    v.map_values(|s: String| s@)
}

/// `"/a/b"` for segments `["a", "b"]`, without the leading slash for the root.
pub open spec fn render_tail(segs: Seq<Seq<char>>) -> Seq<char>
    decreases segs.len(),
{
    if segs.len() == 0 {
        Seq::empty()
    } else {
        render_tail(segs.drop_last()) + seq!['/'] + segs.last()
    }
}

/// The textual form of a normalized path: `/` for the root, `/a/b` otherwise.
pub open spec fn render_path(segs: Seq<Seq<char>>) -> Seq<char> {
    if segs.len() == 0 {
        seq!['/']
    } else {
        render_tail(segs)
    }
}

/// The parent of a normalized path; the root is its own parent.
pub open spec fn parent_segments(segs: Seq<Seq<char>>) -> Seq<Seq<char>> {
    if segs.len() == 0 {
        segs
    } else {
        segs.drop_last()
    }
}

/// The last piece that is neither empty nor `.` (it may be `..`).
pub open spec fn last_named_piece(pieces: Seq<Seq<char>>) -> Option<Seq<char>>
    decreases pieces.len(),
{
    if pieces.len() == 0 {
        None
    } else if pieces.last().len() == 0 || pieces.last() == seq!['.'] {
        last_named_piece(pieces.drop_last())
    } else {
        Some(pieces.last())
    }
}

/// The final component of a path when it names a file or directory: `None` for
/// the root, for an empty path, or when the path ends in `..`.
pub open spec fn spec_file_name(s: Seq<char>) -> Option<Seq<char>> {
    match last_named_piece(split_pieces(s, false)) {
        Some(p) => if p == seq!['.', '.'] {
            None
        } else {
            Some(p)
        },
        None => None,
    }
}

pub proof fn lemma_split_nonempty(s: Seq<char>, backslash: bool)
    ensures
        split_pieces(s, backslash).len() >= 1,
    decreases s.len(),
{
    if s.len() > 0 {
        lemma_split_nonempty(s.drop_last(), backslash);
    }
}

/// Splitting the first `i + 1` characters extends the split of the first `i`.
proof fn lemma_split_step(s: Seq<char>, backslash: bool, i: int)
    requires
        0 <= i < s.len(),
    ensures
        ({
            let p = split_pieces(s.take(i), backslash);
            split_pieces(s.take(i + 1), backslash) == if is_separator(s[i], backslash) {
                p.push(Seq::<char>::empty())
            } else {
                p.update(p.len() - 1, p.last().push(s[i]))
            }
        }),
{
    assert(s.take(i + 1).drop_last() =~= s.take(i));
}

/// No piece of a split contains a separator.
pub proof fn lemma_split_pieces_have_no_separator(s: Seq<char>, backslash: bool)
    ensures
        forall|k: int, j: int|
            0 <= k < split_pieces(s, backslash).len() && 0 <= j < split_pieces(s, backslash)[k].len()
                ==> !is_separator(#[trigger] split_pieces(s, backslash)[k][j], backslash),
    decreases s.len(),
{
    if s.len() > 0 {
        lemma_split_pieces_have_no_separator(s.drop_last(), backslash);
        lemma_split_nonempty(s.drop_last(), backslash);
    }
}

/// Resolving pieces without `/` yields valid segments.
pub proof fn lemma_resolve_valid(pieces: Seq<Seq<char>>)
    requires
        forall|k: int, j: int|
            0 <= k < pieces.len() && 0 <= j < pieces[k].len() ==> #[trigger] pieces[k][j] != '/',
    ensures
        valid_segments(resolve(pieces)),
    decreases pieces.len(),
{
    if pieces.len() > 0 {
        let init = pieces.drop_last();
        assert forall|k: int, j: int|
            0 <= k < init.len() && 0 <= j < init[k].len() implies #[trigger] init[k][j] != '/' by {
            assert(init[k] == pieces[k]);
        }
        lemma_resolve_valid(init);
        let last = pieces.last();
        assert(pieces[pieces.len() - 1] == last);
    }
}

/// Normalized segments are valid segments.
pub proof fn lemma_normalized_segments_valid(s: Seq<char>, backslash: bool)
    ensures
        valid_segments(normalized_segments(s, backslash)),
{
    lemma_split_pieces_have_no_separator(s, backslash);
    let pieces = split_pieces(s, backslash);
    assert forall|k: int, j: int|
        0 <= k < pieces.len() && 0 <= j < pieces[k].len() implies #[trigger] pieces[k][j] != '/' by {
        assert(!is_separator(pieces[k][j], backslash));
    }
    lemma_resolve_valid(pieces);
}

/// Appending a string appends its view.
pub proof fn lemma_seg_views_push(v: Seq<String>, s: String)
    ensures
        seg_views(v.push(s)) == seg_views(v).push(s@),
{
    assert(seg_views(v.push(s)) =~= seg_views(v).push(s@));
}

/// Applies one piece to a stack of segments, as `resolve_step` describes.
fn apply_piece(stack: &mut Vec<String>, piece: &str)
    ensures
        seg_views(final(stack)@) == resolve_step(seg_views(old(stack)@), piece@),
{
    let len = piece.unicode_len();
    if len == 0 {
        return;
    }
    if len == 1 && piece.get_char(0) == '.' {
        assert(piece@ =~= seq!['.']);
        return;
    }
    if len == 2 && piece.get_char(0) == '.' && piece.get_char(1) == '.' {
        assert(piece@ =~= seq!['.', '.']);
        if stack.len() > 0 {
            stack.pop();
            assert(seg_views(stack@) =~= seg_views(old(stack)@).drop_last());
        }
        return;
    }
    assert(piece@ != seq!['.']) by {
        if piece@ == seq!['.'] {
            assert(piece@[0] == '.');
        }
    }
    assert(piece@ != seq!['.', '.']) by {
        if piece@ == seq!['.', '.'] {
            assert(piece@[0] == '.' && piece@[1] == '.');
        }
    }
    stack.push(String::from_str(piece));
    assert(seg_views(stack@) =~= seg_views(old(stack)@).push(piece@));
}

/// Splits `path` into the segments of its normalized form.
pub fn normalized_segments_of(path: &str, backslash: bool) -> (r: Vec<String>)
    ensures
        seg_views(r@) == normalized_segments(path@, backslash),
{
    let n = path.unicode_len();
    let mut stack: Vec<String> = Vec::new();
    let mut start: usize = 0;
    let mut i: usize = 0;
    let ghost mut done: Seq<Seq<char>> = Seq::empty();
    assert(path@.take(0) =~= Seq::<char>::empty());
    assert(seg_views(stack@) =~= Seq::<Seq<char>>::empty());
    assert(path@.subrange(0, 0) =~= Seq::<char>::empty());
    assert(split_pieces(path@.take(0), backslash) =~= done.push(path@.subrange(0, 0)));
    while i < n
        invariant
            n == path@.len(),
            start <= i <= n,
            split_pieces(path@.take(i as int), backslash) == done.push(
                path@.subrange(start as int, i as int),
            ),
            seg_views(stack@) == resolve(done),
        decreases n - i,
    {
        let c = path.get_char(i);
        proof {
            lemma_split_step(path@, backslash, i as int);
        }
        if c == '/' || (backslash && c == '\\') {
            let piece = path.substring_char(start, i);
            apply_piece(&mut stack, piece);
            proof {
                assert(resolve(done.push(piece@)) == resolve_step(resolve(done), piece@)) by {
                    assert(done.push(piece@).drop_last() =~= done);
                }
                done = done.push(piece@);
                assert(path@.subrange((i + 1) as int, (i + 1) as int) =~= Seq::<char>::empty());
            }
            start = i + 1;
        } else {
            proof {
                assert(path@.subrange(start as int, i + 1) =~= path@.subrange(
                    start as int,
                    i as int,
                ).push(c));
                assert(done.push(path@.subrange(start as int, i as int)).update(
                    done.len() as int,
                    path@.subrange(start as int, i as int).push(c),
                ) =~= done.push(path@.subrange(start as int, i + 1)));
            }
        }
        i = i + 1;
    }
    let piece = path.substring_char(start, n);
    apply_piece(&mut stack, piece);
    proof {
        assert(path@.take(n as int) =~= path@);
        assert(done.push(piece@).drop_last() =~= done);
    }
    stack
}

/// Normalizes a path into the segments of its absolute form.
///
/// An empty path is the root when `allow_empty` holds and invalid input
/// otherwise. Empty components and `.` are dropped and `..` removes the
/// previous component (never going above the root). With `backslash`, a
/// backslash separates components as `/` does.
pub fn normalize_path(path: &str, allow_empty: bool, backslash: bool) -> (r: Result<Vec<String>, FsError>)
    ensures
        match r {
            Ok(v) => spec_normalize(path@, allow_empty, backslash) == Ok::<Seq<Seq<char>>, FsError>(
                seg_views(v@),
            ),
            Err(e) => spec_normalize(path@, allow_empty, backslash) == Err::<Seq<Seq<char>>, FsError>(
                e,
            ),
        },
        r is Ok ==> valid_segments(seg_views(r->Ok_0@)),
{
    if path.unicode_len() == 0 {
        if allow_empty {
            let v: Vec<String> = Vec::new();
            assert(seg_views(v@) =~= Seq::<Seq<char>>::empty());
            Ok(v)
        } else {
            Err(FsError::InvalidInput)
        }
    } else {
        proof {
            lemma_normalized_segments_valid(path@, backslash);
        }
        Ok(normalized_segments_of(path, backslash))
    }
}

/// Renders normalized segments as an absolute path string.
pub fn render(segs: &Vec<String>) -> (r: String)
    ensures
        r@ == render_path(seg_views(segs@)),
{
    proof {
        reveal_strlit("/");
    }
    if segs.len() == 0 {
        return String::from_str("/");
    }
    let mut out = String::new();
    let mut i: usize = 0;
    while i < segs.len()
        invariant
            i <= segs@.len(),
            out@ == render_tail(seg_views(segs@).take(i as int)),
        decreases segs@.len() - i,
    {
        proof {
            assert(seg_views(segs@).take(i + 1).drop_last() =~= seg_views(segs@).take(i as int));
        }
        let ghost before = out@;
        out.append("/");
        out.append(segs[i].as_str());
        proof {
            reveal_strlit("/");
            assert("/"@ =~= seq!['/']);
            assert(seg_views(segs@).take(i + 1).last() == segs@[i as int]@);
            assert(out@ =~= before + seq!['/'] + segs@[i as int]@);
        }
        i = i + 1;
    }
    proof {
        assert(seg_views(segs@).take(segs@.len() as int) =~= seg_views(segs@));
    }
    out
}

/// The candidate file name after one more piece: the piece itself unless it
/// is empty or `.`.
fn note_piece(path: &str, start: usize, end: usize, found: Option<(usize, usize)>) -> (r: Option<(usize, usize)>)
    requires
        start <= end <= path@.len(),
        match found {
            Some((a, b)) => a <= b <= path@.len(),
            None => true,
        },
    ensures
        match r {
            Some((a, b)) => a <= b <= path@.len(),
            None => true,
        },
        ({
            let piece = path@.subrange(start as int, end as int);
            let before = match found {
                Some((a, b)) => Some(path@.subrange(a as int, b as int)),
                None => None::<Seq<char>>,
            };
            let after = match r {
                Some((a, b)) => Some(path@.subrange(a as int, b as int)),
                None => None::<Seq<char>>,
            };
            after == if piece.len() == 0 || piece == seq!['.'] {
                before
            } else {
                Some(piece)
            }
        }),
{
    let ghost piece = path@.subrange(start as int, end as int);
    let len = end - start;
    if len == 0 {
        return found;
    }
    if len == 1 {
        let c = path.get_char(start);
        if c == '.' {
            assert(piece =~= seq!['.']);
            return found;
        }
        assert(piece[0] == c);
    }
    assert(piece.len() == len);
    Some((start, end))
}

/// The final component of a path, when there is one that names a file or
/// directory.
pub fn file_name(path: &str) -> (r: Option<String>)
    ensures
        match r {
            Some(s) => spec_file_name(path@) == Some(s@),
            None => spec_file_name(path@) is None,
        },
{
    let n = path.unicode_len();
    let mut start: usize = 0;
    let mut i: usize = 0;
    let mut found: Option<(usize, usize)> = None;
    let ghost mut done: Seq<Seq<char>> = Seq::empty();
    assert(path@.take(0) =~= Seq::<char>::empty());
    assert(path@.subrange(0, 0) =~= Seq::<char>::empty());
    assert(split_pieces(path@.take(0), false) =~= done.push(path@.subrange(0, 0)));
    while i < n
        invariant
            n == path@.len(),
            start <= i <= n,
            split_pieces(path@.take(i as int), false) == done.push(
                path@.subrange(start as int, i as int),
            ),
            match found {
                Some((a, b)) => a <= b <= n && last_named_piece(done) == Some(
                    path@.subrange(a as int, b as int),
                ),
                None => last_named_piece(done) is None,
            },
        decreases n - i,
    {
        proof {
            lemma_split_step(path@, false, i as int);
        }
        let c = path.get_char(i);
        if c == '/' {
            let ghost piece = path@.subrange(start as int, i as int);
            found = note_piece(path, start, i, found);
            proof {
                assert(done.push(piece).drop_last() =~= done);
                done = done.push(piece);
                assert(path@.subrange((i + 1) as int, (i + 1) as int) =~= Seq::<char>::empty());
            }
            start = i + 1;
        } else {
            proof {
                assert(path@.subrange(start as int, i + 1) =~= path@.subrange(
                    start as int,
                    i as int,
                ).push(c));
                assert(done.push(path@.subrange(start as int, i as int)).update(
                    done.len() as int,
                    path@.subrange(start as int, i as int).push(c),
                ) =~= done.push(path@.subrange(start as int, i + 1)));
            }
        }
        i = i + 1;
    }
    let ghost piece = path@.subrange(start as int, n as int);
    found = note_piece(path, start, n, found);
    proof {
        assert(path@.take(n as int) =~= path@);
        assert(done.push(piece).drop_last() =~= done);
        done = done.push(piece);
    }
    match found {
        Some((a, b)) => {
            let ghost piece = path@.subrange(a as int, b as int);
            let mut dotdot = false;
            if b - a == 2 {
                let c0 = path.get_char(a);
                let c1 = path.get_char(a + 1);
                assert(piece[0] == c0 && piece[1] == c1);
                dotdot = c0 == '.' && c1 == '.';
                if dotdot {
                    assert(piece =~= seq!['.', '.']);
                }
            }
            if dotdot {
                None
            } else {
                assert(piece != seq!['.', '.']) by {
                    if piece == seq!['.', '.'] {
                        assert(piece.len() == 2);
                    }
                }
                let name = path.substring_char(a, b);
                Some(String::from_str(name))
            }
        },
        None => None,
    }
}

/// `s` with every backslash replaced by `/`.
pub open spec fn unix_separators(s: Seq<char>) -> Seq<char> {
    s.map_values(|c: char| if c == '\\' { '/' } else { c })
}

/// Treating backslashes as separators splits a path exactly as replacing every
/// backslash by `/` first does.
pub proof fn law_backslash_split_is_replacement(s: Seq<char>)
    ensures
        split_pieces(s, true) == split_pieces(unix_separators(s), false),
        normalized_segments(s, true) == normalized_segments(unix_separators(s), false),
    decreases s.len(),
{
    if s.len() > 0 {
        law_backslash_split_is_replacement(s.drop_last());
        assert(unix_separators(s).drop_last() =~= unix_separators(s.drop_last()));
        assert(unix_separators(s).last() == if s.last() == '\\' { '/' } else { s.last() });
    } else {
        assert(unix_separators(s) =~= s);
    }
}

/// Splitting `s + "/" + t`, where `t` holds no separator, appends `t` to the
/// split of `s`.
proof fn lemma_split_append_segment(s: Seq<char>, t: Seq<char>)
    requires
        forall|i: int| 0 <= i < t.len() ==> t[i] != '/',
    ensures
        split_pieces(s + seq!['/'] + t, false) == split_pieces(s, false).push(t),
    decreases t.len(),
{
    let x = s + seq!['/'] + t;
    if t.len() == 0 {
        assert(x.drop_last() =~= s);
        assert(x.last() == '/');
        assert(split_pieces(x, false) == split_pieces(x.drop_last(), false).push(Seq::<char>::empty()));
        assert(t =~= Seq::<char>::empty());
    } else {
        let u = t.drop_last();
        lemma_split_append_segment(s, u);
        let c = t.last();
        assert(c == t[t.len() - 1]);
        assert(c != '/');
        assert(x.drop_last() =~= s + seq!['/'] + u);
        assert(x.last() == c);
        let p = split_pieces(s, false).push(u);
        assert(split_pieces(x, false) == p.update(p.len() - 1, p.last().push(c)));
        assert(u.push(c) =~= t);
        assert(p.update(p.len() - 1, p.last().push(c)) =~= split_pieces(s, false).push(t));
    }
}

/// The pieces of a rendered non-root path: an empty piece, then the segments.
proof fn lemma_split_render_tail(segs: Seq<Seq<char>>)
    requires
        valid_segments(segs),
    ensures
        split_pieces(render_tail(segs), false) == seq![Seq::<char>::empty()] + segs,
    decreases segs.len(),
{
    if segs.len() == 0 {
        assert(seq![Seq::<char>::empty()] + segs =~= seq![Seq::<char>::empty()]);
    } else {
        let init = segs.drop_last();
        assert(valid_segments(init)) by {
            assert forall|i: int| 0 <= i < init.len() implies valid_segment(#[trigger] init[i]) by {
                assert(init[i] == segs[i]);
            }
        }
        lemma_split_render_tail(init);
        assert(valid_segment(segs[segs.len() - 1]));
        lemma_split_append_segment(render_tail(init), segs.last());
        assert((seq![Seq::<char>::empty()] + init).push(segs.last()) =~= seq![
            Seq::<char>::empty(),
        ] + segs);
    }
}

/// Resolving valid segments after an empty piece gives back the segments.
proof fn lemma_resolve_valid_identity(segs: Seq<Seq<char>>)
    requires
        valid_segments(segs),
    ensures
        resolve(seq![Seq::<char>::empty()] + segs) == segs,
    decreases segs.len(),
{
    if segs.len() == 0 {
        let one = seq![Seq::<char>::empty()];
        assert(one + segs =~= one);
        assert(one.drop_last() =~= Seq::<Seq<char>>::empty());
        assert(resolve(one) == resolve_step(resolve(one.drop_last()), one.last()));
    } else {
        let init = segs.drop_last();
        assert(valid_segments(init)) by {
            assert forall|i: int| 0 <= i < init.len() implies valid_segment(#[trigger] init[i]) by {
                assert(init[i] == segs[i]);
            }
        }
        lemma_resolve_valid_identity(init);
        let whole = seq![Seq::<char>::empty()] + segs;
        assert(whole.drop_last() =~= seq![Seq::<char>::empty()] + init);
        assert(whole.last() == segs.last());
        assert(valid_segment(segs[segs.len() - 1]));
        assert(resolve(whole) == resolve_step(resolve(whole.drop_last()), whole.last()));
        assert(init.push(segs.last()) =~= segs);
    }
}

/// Normalization is idempotent: the rendered form of normalized segments
/// normalizes back to the same segments.
pub proof fn law_normalize_render_roundtrip(segs: Seq<Seq<char>>)
    requires
        valid_segments(segs),
    ensures
        normalized_segments(render_path(segs), false) == segs,
        spec_normalize(render_path(segs), false, false) == Ok::<Seq<Seq<char>>, FsError>(segs),
{
    if segs.len() == 0 {
        let root = seq!['/'];
        assert(root.drop_last() =~= Seq::<char>::empty());
        let e = Seq::<char>::empty();
        assert(split_pieces(Seq::<char>::empty(), false) == seq![e]);
        assert(root.last() == '/');
        assert(split_pieces(root, false) == split_pieces(root.drop_last(), false).push(e));
        assert(split_pieces(root, false) =~= seq![e, e]);
        assert(resolve(seq![e]) == resolve_step(resolve(seq![e].drop_last()), e));
        assert(resolve(seq![e, e]) == resolve_step(resolve(seq![e, e].drop_last()), e));
        assert(seq![e, e].drop_last() =~= seq![e]);
        assert(seq![e].drop_last() =~= Seq::<Seq<char>>::empty());
        assert(render_path(segs).len() == 1);
    } else {
        lemma_split_render_tail(segs);
        lemma_resolve_valid_identity(segs);
        assert(render_path(segs).len() > 0) by {
            assert(render_tail(segs) == render_tail(segs.drop_last()) + seq!['/'] + segs.last());
        }
    }
}

/// Normalizing a normalized path's rendering changes nothing, for any input.
pub proof fn law_normalize_idempotent(s: Seq<char>, backslash: bool)
    ensures
        normalized_segments(render_path(normalized_segments(s, backslash)), false)
            == normalized_segments(s, backslash),
{
    lemma_normalized_segments_valid(s, backslash);
    law_normalize_render_roundtrip(normalized_segments(s, backslash));
}

} // verus!
