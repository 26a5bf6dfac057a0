//! How query files are named: `{id}-{slug}.sql` and `{id}-{slug}.yaml`,
//! where the slug is derived from the query's name, and how the id is read
//! back from such a name, alone or in a line of `git status --porcelain`.
use vstd::prelude::*;
use crate::text::{
    bytes_from, byte_len, char_index_at_byte, chars_of, decimal, decimal_chars, extend_chars, index_at_byte_from,
    is_alphanumeric, is_digit, lemma_decimal_digits, lemma_parse_decimal, lemma_pieces_at_len,
    lowercase, parse_u64_range, parse_u64_spec, pieces_at, range_eq, string_of,
    text_lines, unicode_alphanumeric, unicode_lowercase, utf8_width,
};

verus! {

/// The character that replaces every non-alphanumeric character of a name.
pub open spec fn slug_char(c: char) -> char {
    if unicode_alphanumeric(c) {
        c
    } else {
        '-'
    }
}

/// The lowercased name with every non-alphanumeric character turned into a
/// dash.
pub open spec fn dashed(name: Seq<char>) -> Seq<char> {
    unicode_lowercase(name).map_values(|c: char| slug_char(c))
}

/// The pieces of `s` between dashes, empty pieces included, as
/// `str::split('-')` yields them.
pub open spec fn dash_pieces(s: Seq<char>) -> Seq<Seq<char>> {
    pieces_at(s, '-')
}

/// The pieces joined with a dash between each two.
pub open spec fn join_dash(ps: Seq<Seq<char>>) -> Seq<char>
    decreases ps.len(),
{
    if ps.len() == 0 {
        Seq::<char>::empty()
    } else if ps.len() == 1 {
        ps[0]
    } else {
        join_dash(ps.drop_last()) + seq!['-'] + ps.last()
    }
}

/// A piece that is kept in a slug.
pub open spec fn nonempty_piece(p: Seq<char>) -> bool {
    p.len() > 0
}

/// The slug of a query name: the lowercased name, split at every
/// non-alphanumeric character, with the empty pieces dropped and the rest
/// joined by dashes.
pub open spec fn slug(name: Seq<char>) -> Seq<char> {
    join_dash(kept_pieces(dashed(name)))
}

/// The non-empty pieces of `s` between dashes.
pub open spec fn kept_pieces(s: Seq<char>) -> Seq<Seq<char>> {
    dash_pieces(s).filter(|p: Seq<char>| nonempty_piece(p))
}

/// A dash-separated word list: no dash at either end and no two dashes in a
/// row.
pub open spec fn tidy_dashes(s: Seq<char>) -> bool {
    forall|i: int| 0 <= i < s.len() && #[trigger] s[i] == '-' ==> 0 < i < s.len() - 1 && s[i + 1] != '-'
}

/// The base name of a query's files: its id, a dash, and the slug of its
/// name.
pub open spec fn file_base(id: u64, name: Seq<char>) -> Seq<char> {
    decimal(id as nat) + seq!['-'] + slug(name)
}

/// The text before the first dash of a file name (all of it when there is
/// no dash), as `split('-').next()` gives it.
pub open spec fn before_first_dash(s: Seq<char>) -> Seq<char>
    decreases s.len(),
{
    if s.len() == 0 {
        s
    } else if s[0] == '-' {
        Seq::<char>::empty()
    } else {
        seq![s[0]] + before_first_dash(s.drop_first())
    }
}

/// The query id at the start of a file name: the text before the first dash,
/// read as a `u64`.
pub open spec fn leading_id(s: Seq<char>) -> Option<u64> {
    parse_u64_spec(before_first_dash(s))
}

/// Filtering a sequence with one more element.
pub proof fn lemma_filter_push<A>(s: Seq<A>, x: A, p: spec_fn(A) -> bool)
    ensures
        s.push(x).filter(p) == (if p(x) {
            s.filter(p).push(x)
        } else {
            s.filter(p)
        }),
{
    reveal(Seq::filter);
    assert(s.push(x).drop_last() =~= s);
}

/// Joining non-empty pieces gives an empty text only when there are none.
proof fn lemma_join_nonempty(ps: Seq<Seq<char>>)
    requires
        forall|i: int| 0 <= i < ps.len() ==> #[trigger] ps[i].len() > 0,
    ensures
        (join_dash(ps).len() > 0) == (ps.len() > 0),
    decreases ps.len(),
{
    if ps.len() > 1 {
        lemma_join_nonempty(ps.drop_last());
    }
}

/// Joining pieces that are non-empty and free of dashes gives a tidy word
/// list.
proof fn lemma_join_tidy(ps: Seq<Seq<char>>)
    requires
        forall|i: int| 0 <= i < ps.len() ==> #[trigger] ps[i].len() > 0,
        forall|i: int, j: int| 0 <= i < ps.len() && 0 <= j < ps[i].len() ==> #[trigger] ps[i][j] != '-',
    ensures
        tidy_dashes(join_dash(ps)),
    decreases ps.len(),
{
    if ps.len() == 1 {
        assert(join_dash(ps) == ps[0]);
        assert forall|i: int| 0 <= i < ps[0].len() implies #[trigger] ps[0][i] != '-' by {
            assert(ps[0][i] != '-');
        }
    } else if ps.len() > 1 {
        let front = ps.drop_last();
        lemma_join_tidy(front);
        lemma_join_nonempty(front);
        let a = join_dash(front);
        let b = ps.last();
        let j = join_dash(ps);
        assert(j == a + seq!['-'] + b);
        assert(b.len() > 0);
        assert forall|i: int| 0 <= i < j.len() && #[trigger] j[i] == '-' implies 0 < i < j.len() - 1
            && j[i + 1] != '-' by {
            if i < a.len() {
                assert(j[i] == a[i]);
                if i + 1 < a.len() {
                    assert(j[i + 1] == a[i + 1]);
                }
            } else if i == a.len() {
                assert(j[i + 1] == b[0]);
                assert(ps[ps.len() - 1][0] != '-');
            } else {
                let k = i - a.len() - 1;
                assert(j[i] == b[k]);
                assert(ps[ps.len() - 1][k] != '-');
            }
        }
    }
}

/// No piece holds a dash.
proof fn lemma_pieces_dashless(s: Seq<char>)
    ensures
        forall|i: int, j: int|
            0 <= i < dash_pieces(s).len() && 0 <= j < dash_pieces(s)[i].len() ==> #[trigger] dash_pieces(
                s,
            )[i][j] != '-',
    decreases s.len(),
{
    if s.len() > 0 {
        lemma_pieces_dashless(s.drop_last());
        lemma_pieces_at_len(s.drop_last(), '-');
        let p = dash_pieces(s.drop_last());
        let q = dash_pieces(s);
        assert forall|i: int, j: int| 0 <= i < q.len() && 0 <= j < q[i].len() implies #[trigger] q[i][j]
            != '-' by {
            if s.last() == '-' {
                if i < p.len() {
                    assert(q[i] == p[i]);
                }
            } else {
                if i < p.len() - 1 {
                    assert(q[i] == p[i]);
                } else {
                    assert(q[i] == p.last().push(s.last()));
                    if j < p.last().len() {
                        assert(p[p.len() - 1][j] != '-');
                    }
                }
            }
        }
    }
}

/// Every kept piece is non-empty and free of dashes.
proof fn lemma_kept_pieces(s: Seq<char>)
    ensures
        forall|i: int| 0 <= i < kept_pieces(s).len() ==> #[trigger] kept_pieces(s)[i].len() > 0,
        forall|i: int, j: int|
            0 <= i < kept_pieces(s).len() && 0 <= j < kept_pieces(s)[i].len()
                ==> #[trigger] kept_pieces(s)[i][j] != '-',
{
    let f = |p: Seq<char>| nonempty_piece(p);
    let ps = dash_pieces(s);
    let kept = ps.filter(f);
    lemma_pieces_dashless(s);
    assert forall|i: int| 0 <= i < kept.len() implies #[trigger] kept[i].len() > 0 by {
        ps.lemma_filter_pred(f, i);
    }
    assert forall|i: int, j: int| 0 <= i < kept.len() && 0 <= j < kept[i].len() implies #[trigger] kept[i][j]
        != '-' by {
        assert(kept.contains(kept[i]));
        ps.lemma_filter_contains_rev(f, kept[i]);
        let k = choose|k: int| 0 <= k < ps.len() && ps[k] == kept[i];
        assert(ps[k][j] != '-');
    }
}

/// The text holds no `/`.
pub open spec fn no_slash(s: Seq<char>) -> bool {
    forall|j: int| 0 <= j < s.len() ==> s[j] != '/'
}

/// Turns a query name into the slug used in its file names: lowercase,
/// every run of non-alphanumeric characters collapsed into one dash, and no
/// dash at either end.
#[verifier::rlimit(40)]
pub fn slugify(name: &str) -> (r: String)
    ensures
        r@ == slug(name@),
        tidy_dashes(r@),
        no_slash(r@),
{
    let lower_string = lowercase(name);
    let lower = chars_of(lower_string.as_str());
    let ghost m = dashed(name@);
    let ghost f = |p: Seq<char>| nonempty_piece(p);
    assert(m.len() == lower@.len());
    let mut out: Vec<char> = Vec::new();
    let mut cur: Vec<char> = Vec::new();
    let mut i: usize = 0;
    proof {
        assert(m.take(0) =~= Seq::<char>::empty());
        assert(dash_pieces(m.take(0)).drop_last() =~= Seq::<Seq<char>>::empty());
        assert(Seq::<Seq<char>>::empty().filter(f) =~= Seq::<Seq<char>>::empty()) by {
            reveal(Seq::filter);
        }
    }
    while i < lower.len()
        invariant
            i <= lower.len(),
            m == dashed(name@),
            lower@ == unicode_lowercase(name@),
            m.len() == lower@.len(),
            f == (|p: Seq<char>| nonempty_piece(p)),
            dash_pieces(m.take(i as int)).len() >= 1,
            cur@ == dash_pieces(m.take(i as int)).last(),
            out@ == join_dash(dash_pieces(m.take(i as int)).drop_last().filter(f)),
            (out@.len() > 0) == (dash_pieces(m.take(i as int)).drop_last().filter(f).len() > 0),
            no_slash(out@),
            no_slash(cur@),
        decreases lower.len() - i,
    {
        let c = lower[i];
        let alnum = is_alphanumeric(c);
        let mc = if alnum {
            c
        } else {
            '-'
        };
        assert(mc != '/');
        let ghost prev = m.take(i as int);
        let ghost pp = dash_pieces(prev);
        assert(m[i as int] == mc);
        assert(m.take(i + 1) =~= prev.push(mc));
        assert(m.take(i + 1).drop_last() =~= prev);
        if mc == '-' {
            // the current piece ends here
            proof {
                let np = dash_pieces(m.take(i + 1));
                assert(np == pp.push(Seq::<char>::empty()));
                assert(np.drop_last() =~= pp);
                assert(pp =~= pp.drop_last().push(pp.last()));
                lemma_filter_push(pp.drop_last(), pp.last(), f);
                lemma_kept_pieces(prev);
                assert(np.last() =~= Seq::<char>::empty());
            }
            if cur.len() > 0 {
                let ghost kept_before = pp.drop_last().filter(f);
                if out.len() > 0 {
                    out.push('-');
                }
                extend_chars(&mut out, &cur);
                proof {
                    assert(kept_before.push(cur@).drop_last() =~= kept_before);
                    if kept_before.len() == 0 {
                        assert(kept_before.push(cur@) =~= seq![cur@]);
                    }
                }
                cur = Vec::new();
            } else {
                proof {
                    assert(!f(pp.last()));
                }
            }
        } else {
            cur.push(mc);
            proof {
                let np = dash_pieces(m.take(i + 1));
                assert(np == pp.update(pp.len() - 1, pp.last().push(mc)));
                assert(np.drop_last() =~= pp.drop_last());
            }
        }
        i = i + 1;
    }
    assert(m.take(i as int) =~= m);
    let ghost pp = dash_pieces(m);
    let ghost kept_before = pp.drop_last().filter(f);
    proof {
        assert(pp =~= pp.drop_last().push(pp.last()));
        lemma_filter_push(pp.drop_last(), pp.last(), f);
        lemma_kept_pieces(m);
    }
    if cur.len() > 0 {
        if out.len() > 0 {
            out.push('-');
        }
        extend_chars(&mut out, &cur);
        proof {
            assert(kept_before.push(cur@).drop_last() =~= kept_before);
            if kept_before.len() == 0 {
                assert(kept_before.push(cur@) =~= seq![cur@]);
            }
        }
    }
    let r = string_of(&out);
    proof {
        lemma_slug_tidy(name@);
    }
    r
}

/// A slug is a tidy list of words.
pub proof fn lemma_slug_tidy(name: Seq<char>)
    ensures
        tidy_dashes(slug(name)),
{
    lemma_kept_pieces(dashed(name));
    lemma_join_tidy(kept_pieces(dashed(name)));
}

/// A character that a slug may hold: a dash, or a character that stays
/// itself when slugified.
pub open spec fn slug_safe(c: char) -> bool {
    c == '-' || unicode_alphanumeric(c)
}

/// Splitting joined dash-free pieces at dashes gives the pieces back.
proof fn lemma_pieces_of_join(ps: Seq<Seq<char>>)
    requires
        ps.len() >= 1,
        forall|i: int, j: int| 0 <= i < ps.len() && 0 <= j < ps[i].len() ==> #[trigger] ps[i][j] != '-',
    ensures
        dash_pieces(join_dash(ps)) == ps,
    decreases ps.len(),
{
    if ps.len() == 1 {
        assert forall|j: int| 0 <= j < ps[0].len() implies ps[0][j] != '-' by {
            assert(ps[0][j] != '-');
        }
        lemma_pieces_at_append(Seq::<char>::empty(), ps[0], '-');
        assert(Seq::<char>::empty() + ps[0] =~= ps[0]);
        assert(Seq::<char>::empty() + ps[0] =~= ps[0]);
        assert(seq![Seq::<char>::empty()].update(0, Seq::<char>::empty() + ps[0]) =~= ps);
    } else {
        let front = ps.drop_last();
        assert forall|i: int, j: int| 0 <= i < front.len() && 0 <= j < front[i].len() implies #[trigger] front[i][j]
            != '-' by {
            assert(front[i] == ps[i]);
        }
        lemma_pieces_of_join(front);
        let u = join_dash(front) + seq!['-'];
        let t = ps.last();
        assert forall|j: int| 0 <= j < t.len() implies t[j] != '-' by {
            assert(ps[ps.len() - 1][j] != '-');
        }
        lemma_pieces_at_append(u, t, '-');
        assert(u.drop_last() =~= join_dash(front));
        assert(dash_pieces(u) == front.push(Seq::<char>::empty()));
        assert(Seq::<char>::empty() + t =~= t);
        assert(join_dash(ps) == u + t);
        assert(front.push(Seq::<char>::empty()).update(front.len() as int, t) =~= ps);
    }
}

/// Filtering keeps everything when everything satisfies the predicate.
proof fn lemma_filter_all<A>(s: Seq<A>, p: spec_fn(A) -> bool)
    requires
        forall|i: int| 0 <= i < s.len() ==> p(#[trigger] s[i]),
    ensures
        s.filter(p) == s,
    decreases s.len(),
{
    if s.len() == 0 {
        assert(s.filter(p) =~= s) by {
            reveal(Seq::filter);
        }
    } else {
        let front = s.drop_last();
        assert forall|i: int| 0 <= i < front.len() implies p(#[trigger] front[i]) by {
            assert(front[i] == s[i]);
        }
        lemma_filter_all(front, p);
        lemma_filter_push(front, s.last(), p);
        assert(front.push(s.last()) =~= s);
    }
}

/// The characters of the pieces are characters of the text.
proof fn lemma_pieces_safe(m: Seq<char>, sep: char)
    requires
        forall|k: int| 0 <= k < m.len() ==> slug_safe(#[trigger] m[k]),
    ensures
        forall|i: int, j: int|
            0 <= i < pieces_at(m, sep).len() && 0 <= j < pieces_at(m, sep)[i].len() ==> slug_safe(
                #[trigger] pieces_at(m, sep)[i][j],
            ),
    decreases m.len(),
{
    if m.len() > 0 {
        let front = m.drop_last();
        assert forall|k: int| 0 <= k < front.len() implies slug_safe(#[trigger] front[k]) by {
            assert(front[k] == m[k]);
        }
        lemma_pieces_safe(front, sep);
        lemma_pieces_at_len(front, sep);
        let p = pieces_at(front, sep);
        let q = pieces_at(m, sep);
        assert(slug_safe(m[m.len() - 1]));
        assert forall|i: int, j: int| 0 <= i < q.len() && 0 <= j < q[i].len() implies slug_safe(
            #[trigger] q[i][j],
        ) by {
            if m.last() == sep {
                if i < p.len() {
                    assert(q[i] == p[i]);
                }
            } else if i < p.len() - 1 {
                assert(q[i] == p[i]);
            } else {
                assert(q[i] == p.last().push(m.last()));
                if j < p.last().len() {
                    assert(q[i][j] == p[p.len() - 1][j]);
                }
            }
        }
    }
}

/// Joining pieces of safe characters gives a text of safe characters.
proof fn lemma_join_safe(ps: Seq<Seq<char>>)
    requires
        forall|i: int, j: int| 0 <= i < ps.len() && 0 <= j < ps[i].len() ==> slug_safe(#[trigger] ps[i][j]),
    ensures
        forall|k: int| 0 <= k < join_dash(ps).len() ==> slug_safe(#[trigger] join_dash(ps)[k]),
    decreases ps.len(),
{
    if ps.len() == 1 {
        assert forall|k: int| 0 <= k < join_dash(ps).len() implies slug_safe(#[trigger] join_dash(ps)[k]) by {
            assert(slug_safe(ps[0][k]));
        }
    } else if ps.len() > 1 {
        let front = ps.drop_last();
        assert forall|i: int, j: int| 0 <= i < front.len() && 0 <= j < front[i].len() implies slug_safe(
            #[trigger] front[i][j],
        ) by {
            assert(front[i] == ps[i]);
        }
        lemma_join_safe(front);
        let a = join_dash(front);
        let t = ps.last();
        assert forall|k: int| 0 <= k < join_dash(ps).len() implies slug_safe(#[trigger] join_dash(ps)[k]) by {
            let j = join_dash(ps);
            if k < a.len() {
                assert(j[k] == a[k]);
            } else if k == a.len() {
                assert(j[k] == '-');
            } else {
                assert(j[k] == t[k - a.len() - 1]);
                assert(slug_safe(ps[ps.len() - 1][k - a.len() - 1]));
            }
        }
    }
}

/// Every character of a slug is a dash or stays itself when slugified.
proof fn lemma_slug_safe(name: Seq<char>)
    ensures
        forall|k: int| 0 <= k < slug(name).len() ==> slug_safe(#[trigger] slug(name)[k]),
{
    let m = dashed(name);
    let l = unicode_lowercase(name);
    assert forall|k: int| 0 <= k < m.len() implies slug_safe(#[trigger] m[k]) by {
        assert(m[k] == slug_char(l[k]));
    }
    lemma_pieces_safe(m, '-');
    let f = |p: Seq<char>| nonempty_piece(p);
    let ps = dash_pieces(m);
    let kept = ps.filter(f);
    assert forall|i: int, j: int| 0 <= i < kept.len() && 0 <= j < kept[i].len() implies slug_safe(
        #[trigger] kept[i][j],
    ) by {
        assert(kept.contains(kept[i]));
        ps.lemma_filter_contains_rev(f, kept[i]);
        let q = choose|q: int| 0 <= q < ps.len() && ps[q] == kept[i];
        assert(slug_safe(ps[q][j]));
    }
    lemma_join_safe(kept);
}

/// Slugifying a slug gives it back, provided lowercasing leaves the slug as
/// it is: its pieces are found again, and each character of them is kept.
pub proof fn lemma_slug_idempotent(name: Seq<char>)
    requires
        unicode_lowercase(slug(name)) == slug(name),
    ensures
        slug(slug(name)) == slug(name),
{
    let x = slug(name);
    lemma_slug_safe(name);
    assert(dashed(x) =~= x) by {
        assert forall|k: int| 0 <= k < x.len() implies dashed(x)[k] == x[k] by {
            assert(slug_safe(x[k]));
            assert(dashed(x)[k] == slug_char(x[k]));
        }
    }
    let ps = kept_pieces(dashed(name));
    lemma_kept_pieces(dashed(name));
    let f = |p: Seq<char>| nonempty_piece(p);
    if ps.len() == 0 {
        assert(x =~= Seq::<char>::empty());
        assert(dash_pieces(x) =~= seq![Seq::<char>::empty()]);
        assert(seq![Seq::<char>::empty()] =~= Seq::<Seq<char>>::empty().push(Seq::<char>::empty()));
        lemma_filter_push(Seq::<Seq<char>>::empty(), Seq::<char>::empty(), f);
        assert(Seq::<Seq<char>>::empty().filter(f) =~= Seq::<Seq<char>>::empty()) by {
            reveal(Seq::filter);
        }
    } else {
        lemma_pieces_of_join(ps);
        assert forall|i: int| 0 <= i < ps.len() implies f(#[trigger] ps[i]) by {
            assert(ps[i].len() > 0);
        }
        lemma_filter_all(ps, f);
    }
    assert(kept_pieces(dashed(x)) == ps);
}

/// The index of the last `.` in `s`, or -1 when there is none.
pub open spec fn last_dot(s: Seq<char>) -> int
    decreases s.len(),
{
    if s.len() == 0 {
        -1
    } else if s.last() == '.' {
        s.len() - 1
    } else {
        last_dot(s.drop_last())
    }
}

/// The extension of a file name as `Path::extension` finds it: the text
/// after the last dot, when there is a dot that is not the first character
/// and the name is not `..`.
pub open spec fn file_extension(name: Seq<char>) -> Option<Seq<char>> {
    let k = last_dot(name);
    if name == seq!['.', '.'] || k <= 0 {
        None
    } else {
        Some(name.skip(k + 1))
    }
}

/// The characters of `yaml`.
pub open spec fn yaml_ext() -> Seq<char> {
    seq!['y', 'a', 'm', 'l']
}

/// The characters of `sql`.
pub open spec fn sql_ext() -> Seq<char> {
    seq!['s', 'q', 'l']
}

/// The query id that a file name in the queries directory stands for: the
/// leading id of a `.yaml` file, and nothing for any other file.
pub open spec fn yaml_file_id(name: Seq<char>) -> Option<u64> {
    if file_extension(name) == Some(yaml_ext()) {
        leading_id(name)
    } else {
        None
    }
}

/// The last dot is a dot, and no dot follows it.
proof fn lemma_last_dot_range(s: Seq<char>)
    ensures
        -1 <= last_dot(s) < s.len(),
        last_dot(s) >= 0 ==> s[last_dot(s)] == '.',
        forall|j: int| last_dot(s) < j < s.len() ==> s[j] != '.',
    decreases s.len(),
{
    if s.len() > 0 && s.last() != '.' {
        lemma_last_dot_range(s.drop_last());
        assert forall|j: int| last_dot(s) < j < s.len() implies s[j] != '.' by {
            if j < s.len() - 1 {
                assert(s[j] == s.drop_last()[j]);
            }
        }
    }
}

/// A text ending in a dot, followed by dot-free text, has its last dot there.
pub proof fn lemma_last_dot_append(a: Seq<char>, b: Seq<char>)
    requires
        forall|j: int| 0 <= j < b.len() ==> b[j] != '.',
        a.len() > 0,
        a.last() == '.',
    ensures
        last_dot(a + b) == a.len() - 1,
    decreases b.len(),
{
    if b.len() == 0 {
        assert(a + b =~= a);
    } else {
        assert((a + b).drop_last() =~= a + b.drop_last());
        lemma_last_dot_append(a, b.drop_last());
    }
}

/// The text before the first dash of `a`, a dash and `b` is `a`, when `a`
/// holds no dash.
pub proof fn lemma_before_first_dash_prefix(a: Seq<char>, b: Seq<char>)
    requires
        forall|j: int| 0 <= j < a.len() ==> a[j] != '-',
    ensures
        before_first_dash(a + seq!['-'] + b) == a,
    decreases a.len(),
{
    let s = a + seq!['-'] + b;
    if a.len() == 0 {
        assert(s[0] == '-');
    } else {
        assert(s[0] == a[0]);
        assert(s.drop_first() =~= a.drop_first() + seq!['-'] + b);
        lemma_before_first_dash_prefix(a.drop_first(), b);
        assert(a =~= seq![a[0]] + a.drop_first());
    }
}

/// Writes the base name `{id}-{slug}` of a query's files.
pub fn query_file_base(id: u64, name: &str) -> (r: String)
    ensures
        r@ == file_base(id, name@),
        no_slash(slug(name@)),
{
    let mut out = decimal_chars(id);
    out.push('-');
    let slug_string = slugify(name);
    let slug_chars = chars_of(slug_string.as_str());
    extend_chars(&mut out, &slug_chars);
    string_of(&out)
}

/// The path of a query's SQL file, `queries/{id}-{slug}.sql`.
pub open spec fn sql_path(id: u64, name: Seq<char>) -> Seq<char> {
    queries_dir_prefix() + file_base(id, name) + seq!['.'] + sql_ext()
}

/// The path of a query's metadata file, `queries/{id}-{slug}.yaml`.
pub open spec fn yaml_path(id: u64, name: Seq<char>) -> Seq<char> {
    queries_dir_prefix() + file_base(id, name) + seq!['.'] + yaml_ext()
}

/// The characters of `queries/`.
pub open spec fn queries_dir_prefix() -> Seq<char> {
    seq!['q', 'u', 'e', 'r', 'i', 'e', 's', '/']
}

/// Writes `queries/{base}.{ext}`.
fn query_path_with(base: &String, ext: &Vec<char>) -> (r: String)
    ensures
        r@ == queries_dir_prefix() + base@ + seq!['.'] + ext@,
{
    let mut out: Vec<char> = Vec::new();
    let prefix = chars_of("queries/");
    proof {
        reveal_strlit("queries/");
    }
    extend_chars(&mut out, &prefix);
    let base_chars = chars_of(base.as_str());
    extend_chars(&mut out, &base_chars);
    out.push('.');
    extend_chars(&mut out, ext);
    assert(out@ =~= queries_dir_prefix() + base@ + seq!['.'] + ext@);
    string_of(&out)
}

/// The path `queries/{id}-{slug}.sql` of a query's SQL file.
pub fn query_sql_path(id: u64, name: &str) -> (r: String)
    ensures
        r@ == sql_path(id, name@),
        forall|status: Seq<char>|
            status.len() == 3 && (forall|j: int| 0 <= j < 3 ==> (#[trigger] status[j] as u32) < 0x80)
                ==> status_line_query_id(#[trigger] (status + r@)) == Some(id),
{
    let base = query_file_base(id, name);
    let ext = chars_of("sql");
    proof {
        reveal_strlit("sql");
    }
    assert(ext@ =~= sql_ext());
    let r = query_path_with(&base, &ext);
    proof {
        assert forall|status: Seq<char>|
            status.len() == 3 && (forall|j: int| 0 <= j < 3 ==> (#[trigger] status[j] as u32) < 0x80)
                implies status_line_query_id(#[trigger] (status + r@)) == Some(id) by {
            lemma_status_line_of_query_file(status, id, name@, sql_ext());
            assert(status + r@ =~= status + queries_dir_prefix() + file_base(id, name@) + seq!['.'] + sql_ext());
        }
    }
    r
}

/// The path `queries/{id}-{slug}.yaml` of a query's metadata file.
pub fn query_yaml_path(id: u64, name: &str) -> (r: String)
    ensures
        r@ == yaml_path(id, name@),
        forall|status: Seq<char>|
            status.len() == 3 && (forall|j: int| 0 <= j < 3 ==> (#[trigger] status[j] as u32) < 0x80)
                ==> status_line_query_id(#[trigger] (status + r@)) == Some(id),
{
    let base = query_file_base(id, name);
    let ext = chars_of("yaml");
    proof {
        reveal_strlit("yaml");
    }
    assert(ext@ =~= yaml_ext());
    let r = query_path_with(&base, &ext);
    proof {
        assert forall|status: Seq<char>|
            status.len() == 3 && (forall|j: int| 0 <= j < 3 ==> (#[trigger] status[j] as u32) < 0x80)
                implies status_line_query_id(#[trigger] (status + r@)) == Some(id) by {
            lemma_status_line_of_query_file(status, id, name@, yaml_ext());
            assert(status + r@ =~= status + queries_dir_prefix() + file_base(id, name@) + seq!['.'] + yaml_ext());
        }
    }
    r
}

/// Finds the text before the first dash of `s`.
fn first_dash_end(s: &Vec<char>) -> (k: usize)
    ensures
        k <= s.len(),
        s@.take(k as int) == before_first_dash(s@),
{
    let mut k: usize = 0;
    while k < s.len() && s[k] != '-'
        invariant
            k <= s.len(),
            forall|j: int| 0 <= j < k ==> s@[j] != '-',
        decreases s.len() - k,
    {
        k = k + 1;
    }
    proof {
        lemma_before_first_dash_take(s@, k as int);
    }
    k
}

/// The text before the first dash is the prefix that ends at it.
proof fn lemma_before_first_dash_take(s: Seq<char>, k: int)
    requires
        0 <= k <= s.len(),
        forall|j: int| 0 <= j < k ==> s[j] != '-',
        k == s.len() || s[k] == '-',
    ensures
        s.take(k) == before_first_dash(s),
    decreases k,
{
    if k == 0 {
        assert(s.take(0) =~= Seq::<char>::empty());
    } else {
        assert(s[0] != '-');
        lemma_before_first_dash_take(s.drop_first(), k - 1);
        assert(s.take(k) =~= seq![s[0]] + s.drop_first().take(k - 1));
    }
}

/// Reads the query id at the start of a file name: the text before the
/// first dash, parsed as `str::parse::<u64>` does.
pub fn leading_query_id(name: &str) -> (r: Option<u64>)
    ensures
        r == leading_id(name@),
{
    let chars = chars_of(name);
    let k = first_dash_end(&chars);
    assert(chars@.subrange(0, k as int) =~= chars@.take(k as int));
    parse_u64_range(&chars, 0, k)
}

/// Finds the last dot of `s`.
fn find_last_dot(s: &Vec<char>) -> (r: Option<usize>)
    ensures
        match r {
            Some(k) => k as int == last_dot(s@),
            None => last_dot(s@) == -1,
        },
{
    let mut k = s.len();
    assert(s@.take(k as int) =~= s@);
    while k > 0
        invariant
            k <= s.len(),
            last_dot(s@) == last_dot(s@.take(k as int)),
        decreases k,
    {
        if s[k - 1] == '.' {
            assert(s@.take(k as int).last() == '.');
            return Some(k - 1);
        }
        assert(s@.take(k as int).drop_last() =~= s@.take(k - 1));
        k = k - 1;
    }
    assert(s@.take(0) =~= Seq::<char>::empty());
    None
}

/// Where the extension of the file name `s` starts: just after its last
/// dot, when `Path::extension` finds one.
pub fn extension_bounds(s: &Vec<char>) -> (r: Option<usize>)
    ensures
        match r {
            Some(k) => k <= s.len() && file_extension(s@) == Some(s@.skip(k as int)),
            None => file_extension(s@) is None,
        },
{
    if s.len() == 2 && s[0] == '.' && s[1] == '.' {
        assert(s@ =~= seq!['.', '.']);
        return None;
    }
    assert(s@ != seq!['.', '.']) by {
        if s@ =~= seq!['.', '.'] {
            assert(s@[0] == '.' && s@[1] == '.');
        }
    }
    proof {
        lemma_last_dot_range(s@);
    }
    match find_last_dot(s) {
        None => None,
        Some(k) => {
            if k == 0 {
                None
            } else {
                Some(k + 1)
            }
        },
    }
}

/// Whether the file name has the extension `ext`.
pub fn has_extension(name: &Vec<char>, ext: &Vec<char>) -> (r: bool)
    ensures
        r == (file_extension(name@) == Some(ext@)),
{
    match extension_bounds(name) {
        None => false,
        Some(k) => {
            let eq = range_eq(name, k, name.len(), ext);
            assert(name@.subrange(k as int, name.len() as int) =~= name@.skip(k as int));
            eq
        },
    }
}

/// Whether a file name has the extension `yaml`, as metadata files do.
pub fn is_yaml_file(name: &str) -> (r: bool)
    ensures
        r == (file_extension(name@) == Some(yaml_ext())),
{
    let chars = chars_of(name);
    let ext = chars_of("yaml");
    proof {
        reveal_strlit("yaml");
    }
    assert(ext@ =~= yaml_ext());
    has_extension(&chars, &ext)
}

/// The id of the query that a file in the queries directory holds the
/// metadata of: the leading id of a `.yaml` file name.
pub fn yaml_file_query_id(name: &str) -> (r: Option<u64>)
    ensures
        r == yaml_file_id(name@),
{
    if is_yaml_file(name) {
        leading_query_id(name)
    } else {
        None
    }
}

/// The id written into a query's file names is the id read back from them:
/// the metadata file `{id}-{slug}.yaml` written for a query is recognised as
/// that query's, whatever its name.
pub proof fn lemma_yaml_file_name_roundtrip(id: u64, name: Seq<char>)
    ensures
        yaml_file_id(file_base(id, name) + seq!['.'] + yaml_ext()) == Some(id),
{
    let d = decimal(id as nat);
    let base = file_base(id, name);
    let full = base + seq!['.'] + yaml_ext();
    crate::text::lemma_decimal_digits(id as nat);
    crate::text::lemma_parse_decimal(id);
    assert forall|j: int| 0 <= j < d.len() implies d[j] != '-' by {
        assert(crate::text::is_digit(d[j]));
    }
    assert(full =~= d + seq!['-'] + (slug(name) + seq!['.'] + yaml_ext()));
    lemma_before_first_dash_prefix(d, slug(name) + seq!['.'] + yaml_ext());
    assert(base + seq!['.'] == (base + seq!['.']));
    assert(full =~= (base + seq!['.']) + yaml_ext());
    lemma_last_dot_append(base + seq!['.'], yaml_ext());
    assert(full.skip(base.len() + 1 as int) =~= yaml_ext());
    assert(full != seq!['.', '.']) by {
        assert(full.len() > 2);
    }
}


/// A path component that `Path` keeps: not empty and not `.`.
pub open spec fn normal_component(c: Seq<char>) -> bool {
    c.len() > 0 && c != seq!['.']
}

/// The kept components of a relative path.
pub open spec fn path_components(p: Seq<char>) -> Seq<Seq<char>> {
    pieces_at(p, '/').filter(|c: Seq<char>| normal_component(c))
}

/// The last component of a relative path (empty when there is none).
pub open spec fn last_component(p: Seq<char>) -> Seq<char> {
    let cs = path_components(p);
    if cs.len() == 0 {
        Seq::<char>::empty()
    } else {
        cs.last()
    }
}

/// The extension of a relative path, as `Path::extension` finds it: that of
/// its last component.
pub open spec fn path_extension(p: Seq<char>) -> Option<Seq<char>> {
    file_extension(last_component(p))
}

/// ASCII letters folded to lower case; every other character unchanged.
pub open spec fn ascii_lower(c: char) -> char {
    if 'A' <= c && c <= 'Z' {
        ((c as u32) + 32) as char
    } else {
        c
    }
}

/// The two texts are equal up to ASCII case, as `eq_ignore_ascii_case`
/// decides.
pub open spec fn eq_ignore_ascii_case(a: Seq<char>, b: Seq<char>) -> bool {
    a.len() == b.len() && forall|i: int| 0 <= i < a.len() ==> ascii_lower(#[trigger] a[i]) == ascii_lower(b[i])
}

/// The path that a `git status --porcelain` line names: the line from its
/// fourth byte on, when it is at least three bytes long.
pub open spec fn status_path(line: Seq<char>) -> Option<Seq<char>> {
    if byte_len(line) < 3 {
        None
    } else {
        match char_index_at_byte(line, 3) {
            Some(k) => Some(line.skip(k)),
            None => None,
        }
    }
}

/// Taking a line from its fourth byte on does not cut a character in two.
pub open spec fn status_line_sliceable(line: Seq<char>) -> bool {
    byte_len(line) < 3 || char_index_at_byte(line, 3) is Some
}

/// Every line of the output can be sliced at its fourth byte.
pub open spec fn status_output_sliceable(out: Seq<char>) -> bool {
    forall|i: int| 0 <= i < text_lines(out).len() ==> status_line_sliceable(#[trigger] text_lines(out)[i])
}

/// The query that a `git status --porcelain` line reports as changed: a path
/// under `queries/` whose extension is `sql` or `yaml` in any case, whose
/// file name (the path after `queries/`) starts with the id.
pub open spec fn status_line_query_id(line: Seq<char>) -> Option<u64> {
    match status_path(line) {
        Some(p) => {
            if p.len() >= 8 && p.take(8) == queries_dir_prefix() && match path_extension(p) {
                Some(e) => eq_ignore_ascii_case(e, sql_ext()) || eq_ignore_ascii_case(e, yaml_ext()),
                None => false,
            } {
                leading_id(p.skip(8))
            } else {
                None
            }
        },
        None => None,
    }
}

/// Some line of the `git status --porcelain` output reports query `id` as
/// changed.
pub open spec fn status_reports(out: Seq<char>, id: u64) -> bool {
    exists|i: int| 0 <= i < text_lines(out).len() && status_line_query_id(#[trigger] text_lines(out)[i]) == Some(id)
}

/// Appending text without separators only lengthens the last piece.
proof fn lemma_pieces_at_append(u: Seq<char>, t: Seq<char>, sep: char)
    requires
        forall|j: int| 0 <= j < t.len() ==> t[j] != sep,
    ensures
        pieces_at(u + t, sep) == pieces_at(u, sep).update(
            pieces_at(u, sep).len() - 1,
            pieces_at(u, sep).last() + t,
        ),
    decreases t.len(),
{
    lemma_pieces_at_len(u, sep);
    let p = pieces_at(u, sep);
    if t.len() == 0 {
        assert(u + t =~= u);
        assert(p.last() + t =~= p.last());
        assert(p.update(p.len() - 1, p.last()) =~= p);
    } else {
        lemma_pieces_at_append(u, t.drop_last(), sep);
        assert((u + t).drop_last() =~= u + t.drop_last());
        assert((u + t).last() == t.last());
        let q = p.update(p.len() - 1, p.last() + t.drop_last());
        assert(q.last() == p.last() + t.drop_last());
        assert(q.last().push(t.last()) =~= p.last() + t);
        assert(q.update(q.len() - 1, q.last().push(t.last())) =~= p.update(p.len() - 1, p.last() + t));
    }
}

/// A change reported by `git status --porcelain` on a query file written
/// under `queries/` is recognised as a change of that query: the line, made
/// of three one-byte status characters and the path, names the query's id.
#[verifier::rlimit(40)]
pub proof fn lemma_status_line_of_query_file(status: Seq<char>, id: u64, name: Seq<char>, ext: Seq<char>)
    requires
        status.len() == 3,
        forall|j: int| 0 <= j < 3 ==> (#[trigger] status[j] as u32) < 0x80,
        no_slash(slug(name)),
        ext == sql_ext() || ext == yaml_ext(),
    ensures
        status_line_query_id(status + queries_dir_prefix() + file_base(id, name) + seq!['.'] + ext)
            == Some(id),
{
    let base = file_base(id, name);
    let t = base + seq!['.'] + ext;
    let p = queries_dir_prefix() + t;
    let line = status + queries_dir_prefix() + file_base(id, name) + seq!['.'] + ext;
    assert(line =~= status + p);
    // the path starts after the three status bytes
    assert((status[0] as u32) < 0x80 && (status[1] as u32) < 0x80 && (status[2] as u32) < 0x80);
    assert(line[0] == status[0] && line[1] == status[1] && line[2] == status[2]);
    assert(utf8_width(line[0]) == 1 && utf8_width(line[1]) == 1 && utf8_width(line[2]) == 1);
    lemma_bytes_from_nonneg(line, 3);
    assert(bytes_from(line, 2) == 1 + bytes_from(line, 3));
    assert(bytes_from(line, 1) == 1 + bytes_from(line, 2));
    assert(byte_len(line) == 1 + bytes_from(line, 1));
    assert(index_at_byte_from(line, 3, 3, 3) == Some(3int));
    assert(index_at_byte_from(line, 2, 2, 3) == Some(3int));
    assert(index_at_byte_from(line, 1, 1, 3) == Some(3int));
    assert(char_index_at_byte(line, 3) == Some(3int));
    assert(line.skip(3) =~= p);
    assert(status_path(line) == Some(p));
    assert(p.take(8) =~= queries_dir_prefix());
    // the base name holds no slash
    let d = decimal(id as nat);
    lemma_decimal_digits(id as nat);
    lemma_parse_decimal(id);
    assert forall|j: int| 0 <= j < d.len() implies d[j] != '-' && d[j] != '/' by {
        assert(is_digit(d[j]));
    }
    assert forall|j: int| 0 <= j < t.len() implies t[j] != '/' by {
        if j < d.len() {
            assert(t[j] == d[j]);
        } else if j == d.len() {
            assert(t[j] == '-');
        } else if j < base.len() {
            assert(t[j] == slug(name)[j - d.len() - 1]);
        } else if j == base.len() {
            assert(t[j] == '.');
        } else {
            assert(t[j] == ext[j - base.len() - 1]);
        }
    }
    // its components are `queries` and the file name
    let q = seq!['q', 'u', 'e', 'r', 'i', 'e', 's'];
    assert(pieces_at(Seq::<char>::empty(), '/') =~= seq![Seq::<char>::empty()]);
    lemma_pieces_at_append(Seq::<char>::empty(), q, '/');
    assert(Seq::<char>::empty() + q =~= q);
    assert(pieces_at(q, '/') =~= seq![q]);
    let q1 = q.push('/');
    assert(q1.drop_last() =~= q);
    assert(pieces_at(q1, '/') =~= seq![q, Seq::<char>::empty()]);
    assert(q1 =~= queries_dir_prefix());
    lemma_pieces_at_append(q1, t, '/');
    assert(pieces_at(p, '/') =~= seq![q, t]);
    let f = |c: Seq<char>| normal_component(c);
    assert(q.len() != seq!['.'].len());
    assert(t.len() != seq!['.'].len());
    assert(seq![q, t] =~= seq![q].push(t));
    assert(seq![q] =~= Seq::<Seq<char>>::empty().push(q));
    lemma_filter_push(Seq::<Seq<char>>::empty(), q, f);
    lemma_filter_push(seq![q], t, f);
    assert(Seq::<Seq<char>>::empty().filter(f) =~= Seq::<Seq<char>>::empty()) by {
        reveal(Seq::filter);
    }
    assert(path_components(p) =~= seq![q, t]);
    assert(last_component(p) == t);
    // its extension is `ext`
    assert forall|j: int| 0 <= j < ext.len() implies ext[j] != '.' by {
        if ext == sql_ext() {
            assert(ext[j] != '.');
        } else {
            assert(ext[j] != '.');
        }
    }
    lemma_last_dot_append(base + seq!['.'], ext);
    assert(t =~= (base + seq!['.']) + ext);
    assert(t != seq!['.', '.']) by {
        assert(t.len() > 2);
    }
    assert(t.skip(base.len() + 1 as int) =~= ext);
    assert(path_extension(p) == Some(ext));
    assert(eq_ignore_ascii_case(ext, sql_ext()) || eq_ignore_ascii_case(ext, yaml_ext()));
    // and its file name starts with the id
    assert(p.skip(8) =~= d + seq!['-'] + (slug(name) + seq!['.'] + ext));
    lemma_before_first_dash_prefix(d, slug(name) + seq!['.'] + ext);
}

/// Byte counts are never negative.
pub proof fn lemma_bytes_from_nonneg(s: Seq<char>, k: int)
    ensures
        bytes_from(s, k) >= 0,
    decreases s.len() - k,
{
    if 0 <= k < s.len() {
        lemma_bytes_from_nonneg(s, k + 1);
    }
}

} // verus!
