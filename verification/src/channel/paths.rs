//! Paths as text, taken apart at their slashes.

use crate::text;
use vstd::prelude::*;
use vstd::string::*;

verus! {

/// A part of a path.
#[derive(Debug, PartialEq)]
pub enum Component {
    RootDir,
    CurDir,
    ParentDir,
    Normal(String),
}

/// What a part of a path holds.
pub enum PartModel {
    RootDir,
    CurDir,
    ParentDir,
    Normal(Seq<char>),
}

impl View for Component {
    type V = PartModel;

    open spec fn view(&self) -> PartModel {
        match self {
            Component::RootDir => PartModel::RootDir,
            Component::CurDir => PartModel::CurDir,
            Component::ParentDir => PartModel::ParentDir,
            Component::Normal(s) => PartModel::Normal(s@),
        }
    }
}

impl Clone for Component {
    fn clone(&self) -> (r: Self)
        ensures
            r@ == self@,
    {
        match self {
            Component::RootDir => Component::RootDir,
            Component::CurDir => Component::CurDir,
            Component::ParentDir => Component::ParentDir,
            Component::Normal(s) => Component::Normal(s.clone()),
        }
    }
}

/// What a list of parts holds.
pub open spec fn part_views(v: Seq<Component>) -> Seq<PartModel> {
    v.map_values(|c: Component| c@)
}

/// The parts that one piece between slashes gives: none for an empty piece or a dot.
pub open spec fn piece_parts(piece: Seq<char>) -> Seq<PartModel> {
    if piece.len() == 0 || piece == "."@ {
        Seq::empty()
    } else if piece == ".."@ {
        seq![PartModel::ParentDir]
    } else {
        seq![PartModel::Normal(piece)]
    }
}

/// The parts that a list of pieces gives.
pub open spec fn pieces_parts(pieces: Seq<Seq<char>>) -> Seq<PartModel>
    decreases pieces.len(),
{
    if pieces.len() == 0 {
        Seq::empty()
    } else {
        pieces_parts(pieces.drop_last()) + piece_parts(pieces.last())
    }
}

/// What a path begins with: the root, or the dot of a path that begins with one.
pub open spec fn lead_parts(path: Seq<char>) -> Seq<PartModel> {
    if path.len() > 0 && path[0] == '/' {
        seq![PartModel::RootDir]
    } else if text::split(path, '/')[0] == "."@ {
        seq![PartModel::CurDir]
    } else {
        Seq::empty()
    }
}

/// The parts of a path.
pub open spec fn parts(path: Seq<char>) -> Seq<PartModel> {
    lead_parts(path) + pieces_parts(text::split(path, '/'))
}

proof fn lemma_split_len(s: Seq<char>, c: char)
    ensures
        text::split(s, c).len() >= 1,
{
}

/// The parts of a path.
pub fn components(path: &str) -> (r: Vec<Component>)
    ensures
        part_views(r@) == parts(path@),
{
    let pieces = text::split_text(path, '/');
    let cs = text::chars_of(path);
    let ghost want = text::split(path@, '/');
    proof {
        lemma_split_len(path@, '/');
        assert(text::views(pieces@) == want);
        assert(want[0] == pieces@[0]@);
    }
    let mut out: Vec<Component> = Vec::new();
    if cs.len() > 0 && cs[0] == '/' {
        out.push(Component::RootDir);
    } else if text::same_text(pieces[0].as_str(), ".") {
        out.push(Component::CurDir);
    }
    assert(part_views(out@) =~= lead_parts(path@));
    let ghost lead = lead_parts(path@);
    let mut i: usize = 0;
    assert(want.take(0) =~= Seq::empty());
    assert(lead + pieces_parts(want.take(0)) =~= lead);
    while i < pieces.len()
        invariant
            i <= pieces@.len(),
            want == text::views(pieces@),
            part_views(out@) == lead + pieces_parts(want.take(i as int)),
        decreases pieces@.len() - i,
    {
        let piece = pieces[i].as_str();
        let ghost before = out@;
        assert(want[i as int] == piece@);
        assert(want.take(i + 1).drop_last() =~= want.take(i as int));
        assert(want.take(i + 1).last() == piece@);
        if text::same_text(piece, "") || text::same_text(piece, ".") {
            proof {
                reveal_strlit("");
                assert(piece@.len() == 0 || piece@ == "."@);
                assert(pieces_parts(want.take(i + 1)) =~= pieces_parts(want.take(i as int)));
            }
        } else if text::same_text(piece, "..") {
            out.push(Component::ParentDir);
            proof {
                reveal_strlit("");
                assert(piece@.len() > 0) by {
                    if piece@.len() == 0 {
                        assert(piece@ =~= ""@);
                    }
                }
                assert(part_views(out@) =~= part_views(before).push(PartModel::ParentDir));
                assert(part_views(out@) =~= lead + pieces_parts(want.take(i + 1)));
            }
        } else {
            out.push(Component::Normal(piece.to_string()));
            proof {
                reveal_strlit("");
                assert(piece@.len() > 0) by {
                    if piece@.len() == 0 {
                        assert(piece@ =~= ""@);
                    }
                }
                assert(part_views(out@) =~= part_views(before).push(PartModel::Normal(piece@)));
                assert(part_views(out@) =~= lead + pieces_parts(want.take(i + 1)));
            }
        }
        i += 1;
    }
    assert(want.take(pieces@.len() as int) =~= want);
    out
}

/// Whether two parts are the same.
pub fn same_part(a: &Component, b: &Component) -> (r: bool)
    ensures
        r == (a@ == b@),
{
    match (a, b) {
        (Component::RootDir, Component::RootDir) => true,
        (Component::CurDir, Component::CurDir) => true,
        (Component::ParentDir, Component::ParentDir) => true,
        (Component::Normal(x), Component::Normal(y)) => text::same_text(x.as_str(), y.as_str()),
        _ => false,
    }
}

/// How many parts two lists have in common from their beginning on.
pub open spec fn common(a: Seq<PartModel>, b: Seq<PartModel>) -> nat
    decreases a.len(),
{
    if a.len() == 0 || b.len() == 0 || a[0] != b[0] {
        0
    } else {
        1 + common(a.drop_first(), b.drop_first())
    }
}

proof fn lemma_common_is(a: Seq<PartModel>, b: Seq<PartModel>, k: int)
    requires
        0 <= k <= a.len(),
        k <= b.len(),
        a.take(k) == b.take(k),
        k < a.len() && k < b.len() ==> a[k] != b[k],
    ensures
        common(a, b) == k,
    decreases a.len(),
{
    if k > 0 {
        assert(a[0] == a.take(k)[0]);
        assert(b[0] == b.take(k)[0]);
        assert(a.drop_first().take(k - 1) =~= a.take(k).drop_first());
        assert(b.drop_first().take(k - 1) =~= b.take(k).drop_first());
        lemma_common_is(a.drop_first(), b.drop_first(), k - 1);
    }
}

/// What two lists have in common is the same in both.
pub proof fn lemma_common(a: Seq<PartModel>, b: Seq<PartModel>)
    ensures
        common(a, b) <= a.len(),
        common(a, b) <= b.len(),
        a.take(common(a, b) as int) == b.take(common(a, b) as int),
    decreases a.len(),
{
    if a.len() > 0 && b.len() > 0 && a[0] == b[0] {
        let x = a.drop_first();
        let y = b.drop_first();
        lemma_common(x, y);
        let k = common(x, y) as int;
        assert(a.take(k + 1) =~= seq![a[0]] + x.take(k));
        assert(b.take(k + 1) =~= seq![b[0]] + y.take(k));
    } else {
        assert(a.take(0) =~= b.take(0));
    }
}

/// How many parts two lists have in common from their beginning on.
pub fn common_parts(a: &Vec<Component>, b: &Vec<Component>) -> (r: usize)
    ensures
        r == common(part_views(a@), part_views(b@)),
        r <= a@.len(),
        r <= b@.len(),
{
    let mut k: usize = 0;
    let ghost x = part_views(a@);
    let ghost y = part_views(b@);
    while k < a.len() && k < b.len() && same_part(&a[k], &b[k])
        invariant
            k <= a@.len(),
            k <= b@.len(),
            x == part_views(a@),
            y == part_views(b@),
            x.take(k as int) == y.take(k as int),
        decreases a@.len() - k,
    {
        assert(x[k as int] == a@[k as int]@);
        assert(y[k as int] == b@[k as int]@);
        assert(x.take(k + 1) =~= x.take(k as int).push(x[k as int]));
        assert(y.take(k + 1) =~= y.take(k as int).push(y[k as int]));
        k += 1;
    }
    proof {
        if k < x.len() && k < y.len() {
            assert(x[k as int] == a@[k as int]@);
            assert(y[k as int] == b@[k as int]@);
        }
        lemma_common_is(x, y, k as int);
    }
    k
}

/// Whether the path is at or below the other one, part by part.
pub open spec fn is_within(path: Seq<char>, base: Seq<char>) -> bool {
    common(parts(path), parts(base)) == parts(base).len()
}

/// Whether the path is at or below the other one, part by part.
pub fn within(path: &str, base: &str) -> (r: bool)
    ensures
        r == is_within(path@, base@),
{
    let p = components(path);
    let b = components(base);
    assert(part_views(b@).len() == b@.len());
    common_parts(&p, &b) == b.len()
}

/// The text of a part.
pub open spec fn part_text(p: PartModel) -> Seq<char> {
    match p {
        PartModel::RootDir => "/"@,
        PartModel::CurDir => "."@,
        PartModel::ParentDir => ".."@,
        PartModel::Normal(s) => s,
    }
}

/// The texts of the parts from `from` on.
pub open spec fn texts_from(v: Seq<PartModel>, from: int) -> Seq<Seq<char>> {
    v.skip(from).map_values(|p: PartModel| part_text(p))
}

/// The texts of the parts from `from` on.
pub fn part_texts(v: &Vec<Component>, from: usize) -> (r: Vec<String>)
    requires
        from <= v@.len(),
    ensures
        text::views(r@) == texts_from(part_views(v@), from as int),
{
    let mut out: Vec<String> = Vec::new();
    let mut i: usize = from;
    let ghost want = texts_from(part_views(v@), from as int);
    while i < v.len()
        invariant
            from <= i <= v@.len(),
            want == texts_from(part_views(v@), from as int),
            text::views(out@) == want.take(i - from),
        decreases v@.len() - i,
    {
        let ghost before = out@;
        let t: String = match &v[i] {
            Component::RootDir => "/".to_string(),
            Component::CurDir => ".".to_string(),
            Component::ParentDir => "..".to_string(),
            Component::Normal(s) => s.clone(),
        };
        out.push(t);
        proof {
            text::lemma_views_push(before, t);
            assert(want[i - from] == part_text(v@[i as int]@));
            assert(want.take(i + 1 - from) =~= want.take(i - from).push(t@));
        }
        i += 1;
    }
    assert(want.take(v@.len() - from) =~= want);
    out
}

// ---------------------------------------------------------------------------
// The last part
// ---------------------------------------------------------------------------
/// A path without slashes and dots at its end.
pub open spec fn tail_trimmed(s: Seq<char>) -> Seq<char>
    decreases s.len(),
{
    if s.len() > 1 && s.last() == '/' {
        tail_trimmed(s.drop_last())
    } else if s.len() > 1 && s.last() == '.' && s[s.len() - 2] == '/' {
        tail_trimmed(s.drop_last())
    } else {
        s
    }
}

/// The position behind the last slash.
pub open spec fn last_start(s: Seq<char>) -> int
    decreases s.len(),
{
    if s.len() == 0 || s.last() == '/' {
        s.len() as int
    } else {
        last_start(s.drop_last())
    }
}

/// The name of the file or directory that a path leads to.
pub open spec fn name_of(path: Seq<char>) -> Option<Seq<char>> {
    let t = tail_trimmed(path);
    let name = t.skip(last_start(t));
    if name.len() == 0 || name == "."@ || name == ".."@ {
        None
    } else {
        Some(name)
    }
}

/// The directory that holds what a path leads to.
pub open spec fn parent_of(path: Seq<char>) -> Option<Seq<char>> {
    let t = tail_trimmed(path);
    if t.len() == 0 || t == "/"@ {
        None
    } else {
        Some(
            if last_start(t) <= 1 {
                t.take(last_start(t))
            } else {
                tail_trimmed(t.take(last_start(t) - 1))
            },
        )
    }
}

fn tail_trim(cs: &Vec<char>, to: usize) -> (r: usize)
    requires
        to <= cs@.len(),
    ensures
        r <= to,
        cs@.take(r as int) == tail_trimmed(cs@.take(to as int)),
{
    let mut n: usize = to;
    while n > 1 && (cs[n - 1] == '/' || (cs[n - 1] == '.' && cs[n - 2] == '/'))
        invariant
            n <= to <= cs@.len(),
            tail_trimmed(cs@.take(n as int)) == tail_trimmed(cs@.take(to as int)),
        decreases n,
    {
        assert(cs@.take(n as int).drop_last() =~= cs@.take(n - 1));
        assert(cs@.take(n as int).last() == cs@[n - 1]);
        assert(cs@.take(n as int)[n - 2] == cs@[n - 2]);
        n -= 1;
    }
    proof {
        if n > 1 {
            assert(cs@.take(n as int).last() == cs@[n - 1]);
            assert(cs@.take(n as int)[n - 2] == cs@[n - 2]);
        }
    }
    n
}

fn last_begin(cs: &Vec<char>, to: usize) -> (r: usize)
    requires
        to <= cs@.len(),
    ensures
        r <= to,
        r == last_start(cs@.take(to as int)),
{
    let mut n: usize = to;
    while n > 0 && cs[n - 1] != '/'
        invariant
            n <= to <= cs@.len(),
            last_start(cs@.take(n as int)) == last_start(cs@.take(to as int)),
        decreases n,
    {
        assert(cs@.take(n as int).drop_last() =~= cs@.take(n - 1));
        assert(cs@.take(n as int).last() == cs@[n - 1]);
        n -= 1;
    }
    proof {
        if n > 0 {
            assert(cs@.take(n as int).last() == cs@[n - 1]);
        }
    }
    n
}

/// The name of the file or directory that a path leads to.
pub fn file_name(path: &str) -> (r: Option<String>)
    ensures
        text::opt_view(r) == name_of(path@),
{
    let cs = text::chars_of(path);
    let n = tail_trim(&cs, cs.len());
    let k = last_begin(&cs, n);
    let name = text::text_of(&cs, k, n);
    proof {
        assert(cs@.take(cs@.len() as int) =~= cs@);
        assert(cs@.take(n as int).skip(k as int) =~= cs@.subrange(k as int, n as int));
        reveal_strlit("");
    }
    if k == n || text::same_text(name.as_str(), ".") || text::same_text(name.as_str(), "..") {
        None
    } else {
        Some(name)
    }
}

/// The directory that holds what a path leads to.
pub fn parent(path: &str) -> (r: Option<String>)
    ensures
        text::opt_view(r) == parent_of(path@),
{
    let cs = text::chars_of(path);
    let n = tail_trim(&cs, cs.len());
    proof {
        assert(cs@.take(cs@.len() as int) =~= cs@);
        reveal_strlit("/");
        if n == 1 && cs@[0] == '/' {
            assert(cs@.take(1) =~= "/"@);
        }
        if cs@.take(n as int) == "/"@ {
            assert(cs@.take(n as int)[0] == '/');
        }
    }
    if n == 0 || (n == 1 && cs[0] == '/') {
        return None;
    }
    let k = last_begin(&cs, n);
    if k <= 1 {
        assert(cs@.take(n as int).take(k as int) =~= cs@.subrange(0, k as int));
        return Some(text::text_of(&cs, 0, k));
    }
    let m = tail_trim(&cs, k - 1);
    proof {
        assert(cs@.take(n as int).take(k - 1) =~= cs@.take(k - 1));
        assert(cs@.take(m as int) =~= cs@.subrange(0, m as int));
    }
    Some(text::text_of(&cs, 0, m))
}

// ---------------------------------------------------------------------------
// Facts
// ---------------------------------------------------------------------------
/// Whether a text can be the name of a file: not empty, no slash, neither dot nor two dots.
pub open spec fn is_name(s: Seq<char>) -> bool {
    s.len() > 0 && !s.contains('/') && s != "."@ && s != ".."@
}

/// Whether a part that is a name is a proper one.
pub open spec fn is_plain(p: PartModel) -> bool {
    match p {
        PartModel::Normal(s) => is_name(s),
        _ => true,
    }
}

proof fn lemma_split_pieces(s: Seq<char>, c: char)
    ensures
        forall|k: int| 0 <= k < text::split(s, c).len() ==> !(#[trigger] text::split(s, c)[k]).contains(c),
    decreases s.len(),
{
    text::lemma_pos(s, c);
    let k = text::pos(s, c);
    if k < s.len() {
        lemma_split_pieces(s.skip(k + 1), c);
        let rest = text::split(s.skip(k + 1), c);
        assert forall|i: int| 0 <= i < text::split(s, c).len() implies !(#[trigger] text::split(
            s,
            c,
        )[i]).contains(c) by {
            if i > 0 {
                assert(text::split(s, c)[i] == rest[i - 1]);
            }
        }
    }
}

proof fn lemma_pieces_plain(pieces: Seq<Seq<char>>)
    requires
        forall|k: int| 0 <= k < pieces.len() ==> !(#[trigger] pieces[k]).contains('/'),
    ensures
        forall|i: int| 0 <= i < pieces_parts(pieces).len() ==> is_plain(#[trigger] pieces_parts(pieces)[i]),
    decreases pieces.len(),
{
    if pieces.len() > 0 {
        let t = pieces.drop_last();
        assert forall|k: int| 0 <= k < t.len() implies !(#[trigger] t[k]).contains('/') by {
            assert(t[k] == pieces[k]);
        }
        lemma_pieces_plain(t);
        assert(!pieces[pieces.len() - 1].contains('/'));
        let all = pieces_parts(pieces);
        assert forall|i: int| 0 <= i < all.len() implies is_plain(#[trigger] all[i]) by {
            if i < pieces_parts(t).len() {
                assert(all[i] == pieces_parts(t)[i]);
            } else {
                assert(all[i] == piece_parts(pieces.last())[i - pieces_parts(t).len()]);
            }
        }
    }
}

/// The names in a path are proper names.
pub proof fn lemma_parts_are_plain(path: Seq<char>)
    ensures
        forall|i: int| 0 <= i < parts(path).len() ==> is_plain(#[trigger] parts(path)[i]),
{
    lemma_split_pieces(path, '/');
    lemma_pieces_plain(text::split(path, '/'));
    let all = parts(path);
    let lead = lead_parts(path);
    assert forall|i: int| 0 <= i < all.len() implies is_plain(#[trigger] all[i]) by {
        if i < lead.len() {
            assert(all[i] == lead[i]);
        } else {
            assert(all[i] == pieces_parts(text::split(path, '/'))[i - lead.len()]);
        }
    }
}

proof fn lemma_split_add(s: Seq<char>, c: char, t: Seq<char>)
    requires
        !t.contains(c),
    ensures
        text::split(s.push(c) + t, c) == text::split(s, c).push(t),
    decreases s.len(),
{
    text::lemma_pos(s, c);
    let k = text::pos(s, c);
    let whole = s.push(c) + t;
    if k < s.len() {
        assert forall|i: int| 0 <= i < k implies whole[i] != c by {
            assert(whole[i] == s[i]);
        }
        assert(whole[k] == c);
        text::lemma_pos_is(whole, c, k);
        assert(whole.take(k) =~= s.take(k));
        assert(whole.skip(k + 1) =~= s.skip(k + 1).push(c) + t);
        lemma_split_add(s.skip(k + 1), c, t);
        assert(text::split(whole, c) =~= text::split(s, c).push(t));
    } else {
        assert forall|i: int| 0 <= i < s.len() implies whole[i] != c by {
            assert(whole[i] == s[i]);
        }
        assert(whole[s.len() as int] == c);
        text::lemma_pos_is(whole, c, s.len() as int);
        assert(whole.take(s.len() as int) =~= s);
        assert(whole.skip(s.len() + 1int) =~= t);
        text::lemma_pos(t, c);
        assert(text::split(t, c) =~= seq![t]);
        assert(text::split(whole, c) =~= text::split(s, c).push(t));
    }
}

proof fn lemma_pieces_push(pieces: Seq<Seq<char>>, t: Seq<char>)
    ensures
        pieces_parts(pieces.push(t)) == pieces_parts(pieces) + piece_parts(t),
{
    assert(pieces.push(t).drop_last() =~= pieces);
}

proof fn lemma_split_first(s: Seq<char>, c: char, t: Seq<char>)
    requires
        !t.contains(c),
    ensures
        text::split(s.push(c) + t, c)[0] == text::split(s, c)[0],
        text::split(s, c).len() >= 1,
{
    lemma_split_add(s, c, t);
}

/// A name below a path adds one part to it.
pub proof fn lemma_below_adds_a_part(base: Seq<char>, name: Seq<char>)
    requires
        base.len() > 0,
        is_name(name),
    ensures
        parts(crate::config::below(base, name)) == parts(base).push(PartModel::Normal(name)),
        crate::config::below(base, name).len() > 0,
{
    reveal_strlit("/");
    let path = crate::config::below(base, name);
    let stem = if base.last() == '/' {
        base.drop_last()
    } else {
        base
    };
    assert("/"@ =~= seq!['/']);
    assert(path =~= stem.push('/') + name);
    lemma_split_add(stem, '/', name);
    lemma_pieces_push(text::split(stem, '/'), name);
    lemma_split_first(stem, '/', name);
    assert(piece_parts(name) =~= seq![PartModel::Normal(name)]);
    if base.last() == '/' {
        let none = Seq::<char>::empty();
        assert(!none.contains('/'));
        assert(base =~= stem.push('/') + none);
        lemma_split_add(stem, '/', none);
        lemma_pieces_push(text::split(stem, '/'), none);
        lemma_split_first(stem, '/', none);
        assert(pieces_parts(text::split(base, '/')) =~= pieces_parts(text::split(stem, '/')));
        assert(path[0] == base[0]) by {
            if stem.len() == 0 {
                assert(base[0] == '/');
            }
        }
    } else {
        assert(path[0] == base[0]);
    }
    assert(lead_parts(path) =~= lead_parts(base));
    assert(parts(path) =~= parts(base).push(PartModel::Normal(name)));
}

/// A list has all of itself in common with itself.
pub proof fn lemma_common_self(a: Seq<PartModel>)
    ensures
        common(a, a) == a.len(),
    decreases a.len(),
{
    if a.len() > 0 {
        lemma_common_self(a.drop_first());
    }
}

/// What stands below something still does so with one more part.
pub proof fn lemma_common_longer(a: Seq<PartModel>, p: PartModel, b: Seq<PartModel>)
    requires
        common(a, b) == b.len(),
    ensures
        common(a.push(p), b) == b.len(),
    decreases a.len(),
{
    if a.len() > 0 && b.len() > 0 {
        assert(a.push(p).drop_first() =~= a.drop_first().push(p));
        assert(a.push(p)[0] == a[0]);
        lemma_common_longer(a.drop_first(), p, b.drop_first());
    }
}

/// An empty path has no parts.
pub proof fn lemma_no_parts(path: Seq<char>)
    requires
        path.len() == 0,
    ensures
        parts(path) == Seq::<PartModel>::empty(),
{
    reveal_strlit(".");
    let pieces = text::split(path, '/');
    assert(pieces =~= seq![path]);
    let none = Seq::<Seq<char>>::empty();
    assert(pieces =~= none.push(path));
    lemma_pieces_push(none, path);
    assert(pieces_parts(none) =~= Seq::empty());
    assert(parts(path) =~= Seq::empty());
}

// ---------------------------------------------------------------------------
// Laws
// ---------------------------------------------------------------------------
/// The last name of a path begins behind its last slash.
pub proof fn law_the_last_name_begins_behind_the_last_slash(a: Seq<char>, name: Seq<char>)
    requires
        !name.contains('/'),
    ensures
        last_start(a + seq!['/'] + name) == a.len() + 1,
        last_start(name) == 0,
    decreases name.len(),
{
    let s = a + seq!['/'] + name;
    if name.len() > 0 {
        let t = name.drop_last();
        assert(name.contains(name[name.len() - 1]));
        assert(!t.contains('/')) by {
            if t.contains('/') {
                let k = choose|k: int| 0 <= k < t.len() && t[k] == '/';
                assert(name[k] == '/');
            }
        }
        assert(s.drop_last() =~= a + seq!['/'] + t);
        assert(s.last() == name[name.len() - 1]);
        law_the_last_name_begins_behind_the_last_slash(a, t);
    } else {
        assert(s.last() == '/');
    }
}

/// A path is its directory, a slash and its name; slashes at its end do not count.
#[verifier::rlimit(40)]
pub proof fn law_directory_and_name_make_the_path(dir: Seq<char>, name: Seq<char>)
    requires
        is_name(name),
        dir.len() > 0,
        dir.last() != '/',
        dir.last() != '.',
    ensures
        name_of(dir + seq!['/'] + name) == Some(name),
        parent_of(dir + seq!['/'] + name) == Some(dir),
        name_of(dir + seq!['/'] + name + seq!['/']) == Some(name),
        parent_of(dir + seq!['/'] + name + seq!['/']) == Some(dir),
{
    let path = dir + seq!['/'] + name;
    law_the_last_name_begins_behind_the_last_slash(dir, name);
    assert(name.contains(name[name.len() - 1]));
    assert(path.last() == name[name.len() - 1]);
    assert(tail_trimmed(path) == path) by {
        if path.last() == '.' && path[path.len() - 2] == '/' {
            if name.len() > 1 {
                assert(path[path.len() - 2] == name[name.len() - 2]);
                assert(name.contains(name[name.len() - 2]));
            } else {
                reveal_strlit(".");
                assert(name =~= "."@);
            }
        }
    }
    assert(path.skip((dir.len() + 1) as int) =~= name);
    assert(path.take(dir.len() as int) =~= dir);
    assert(tail_trimmed(dir) == dir);
    reveal_strlit("/");
    assert(path != "/"@) by {
        assert(path.len() > 1);
        assert("/"@.len() == 1);
    }
    let more = path + seq!['/'];
    assert(more.last() == '/');
    assert(more.drop_last() =~= path);
    assert(tail_trimmed(more) == path);
}

/// A path lies within a directory where it is the directory or stands below it by names.
pub proof fn law_names_below_lie_within(base: Seq<char>, name: Seq<char>)
    requires
        base.len() > 0,
        is_name(name),
    ensures
        is_within(base, base),
        is_within(crate::config::below(base, name), base),
        !is_within(base, crate::config::below(base, name)),
{
    lemma_below_adds_a_part(base, name);
    lemma_common_self(parts(base));
    lemma_common_longer(parts(base), PartModel::Normal(name), parts(base));
    lemma_common(parts(base), parts(crate::config::below(base, name)));
}

/// What is written of a part is the part itself.
pub proof fn law_parts_are_written_as_they_are(name: Seq<char>)
    ensures
        part_text(PartModel::RootDir) == "/"@,
        part_text(PartModel::CurDir) == "."@,
        part_text(PartModel::ParentDir) == ".."@,
        part_text(PartModel::Normal(name)) == name,
{
}

proof fn lemma_pieces_are_names(v: Seq<Seq<char>>)
    requires
        forall|k: int| 0 <= k < v.len() ==> is_name(#[trigger] v[k]),
    ensures
        pieces_parts(v) == v.map_values(|n: Seq<char>| PartModel::Normal(n)),
    decreases v.len(),
{
    if v.len() > 0 {
        let t = v.drop_last();
        assert forall|k: int| 0 <= k < t.len() implies is_name(#[trigger] t[k]) by {
            assert(t[k] == v[k]);
        }
        lemma_pieces_are_names(t);
        assert(is_name(v[v.len() - 1]));
        assert(pieces_parts(v) =~= v.map_values(|n: Seq<char>| PartModel::Normal(n)));
    } else {
        assert(pieces_parts(v) =~= v.map_values(|n: Seq<char>| PartModel::Normal(n)));
    }
}

/// Names with slashes between them are the parts of a path, in their order; with a slash before them
/// the path begins at the root.
#[verifier::rlimit(40)]
pub proof fn law_parts_stand_between_slashes(v: Seq<Seq<char>>)
    requires
        v.len() > 0,
        forall|k: int| 0 <= k < v.len() ==> is_name(#[trigger] v[k]),
    ensures
        parts(text::joined(v, seq!['/'])) == v.map_values(|n: Seq<char>| PartModel::Normal(n)),
        parts(seq!['/'] + text::joined(v, seq!['/'])) == seq![PartModel::RootDir] + v.map_values(
            |n: Seq<char>| PartModel::Normal(n),
        ),
{
    let s = text::joined(v, seq!['/']);
    assert forall|k: int| 0 <= k < v.len() implies !(#[trigger] v[k]).contains('/') by {
        assert(is_name(v[k]));
    }
    text::law_joined_pieces_are_split_again(v, '/');
    lemma_pieces_are_names(v);
    assert(is_name(v[0]));
    if v.len() > 1 {
        let rest = v.drop_first();
        text::law_joining_keeps_the_texts(seq![v[0]], rest, seq!['/']);
        assert(v =~= seq![v[0]] + rest);
    }
    assert(s.len() > 0 && s[0] == v[0][0]);
    assert(v[0].contains(v[0][0]));
    assert(lead_parts(s) =~= Seq::empty());
    assert(parts(s) =~= v.map_values(|n: Seq<char>| PartModel::Normal(n)));
    let none = Seq::<char>::empty();
    let r = seq!['/'] + s;
    text::law_texts_are_cut_at_the_first(none, s, '/');
    assert(none + seq!['/'] + s =~= r);
    assert(r.take(0) =~= none);
    assert(r.skip(1) =~= s);
    assert(text::split(r, '/') =~= seq![none] + v);
    lemma_pieces_with_first(none, v);
    assert(lead_parts(r) =~= seq![PartModel::RootDir]);
    assert(parts(r) =~= seq![PartModel::RootDir] + v.map_values(
        |n: Seq<char>| PartModel::Normal(n),
    ));
}

proof fn lemma_pieces_with_first(none: Seq<char>, v: Seq<Seq<char>>)
    requires
        none.len() == 0,
    ensures
        pieces_parts(seq![none] + v) == pieces_parts(v),
    decreases v.len(),
{
    let w = seq![none] + v;
    if v.len() > 0 {
        lemma_pieces_with_first(none, v.drop_last());
        assert(w.drop_last() =~= seq![none] + v.drop_last());
    } else {
        assert(w.drop_last() =~= Seq::empty());
        assert(pieces_parts(w.drop_last()) =~= Seq::empty());
        assert(w.last() == none);
        assert(pieces_parts(w) =~= Seq::empty());
        assert(pieces_parts(v) =~= Seq::empty());
    }
}

} // verus!
