//! What `deploy` decides: which local queries to push, whether their
//! metadata files are acceptable, and what to do with their visualizations.
use vstd::prelude::*;
use crate::models::{CreateVisualization, Parameter, QueryMetadata, Visualization};
use crate::text::{
    bytes_from, byte_len, char_index_at_byte, char_width, chars_of, extend_chars, index_at_byte_from,
    lemma_pieces_at_len, lemma_pieces_at_prefix, pieces_at, string_of, strip_cr, text_lines,
};
use crate::naming::{
    ascii_lower, eq_ignore_ascii_case, extension_bounds, last_component, leading_query_id, lemma_bytes_from_nonneg,
    lemma_filter_push, normal_component, queries_dir_prefix, sql_ext, status_line_query_id, status_line_sliceable,
    status_output_sliceable, status_path, status_reports, yaml_ext,
};
use crate::id_set::{insert_id, strictly_increasing};
use crate::by_id::Identified;

verus! {

/// `s` holds a backslash followed by `n`: a newline written as an escape.
pub open spec fn has_escaped_newline(s: Seq<char>) -> bool {
    exists|i: int| 0 <= i < s.len() - 1 && #[trigger] s[i] == '\\' && s[i + 1] == 'n'
}

/// The parameter's enum options hold an escaped newline.
pub open spec fn escaped_enum_options(p: Parameter) -> bool {
    match p.enum_options {
        Some(e) => has_escaped_newline(e@),
        None => false,
    }
}

/// A metadata file whose enum options are written with escaped newlines
/// where YAML multi-line text is expected.
#[derive(Debug)]
pub struct EscapedNewlineError {
    /// The metadata file.
    pub yaml_path: String,
    /// The first parameter with escaped newlines.
    pub parameter: String,
}

impl EscapedNewlineError {
    /// The message that explains how to write the options instead.
    pub fn to_string(&self) -> (r: String)
        ensures
            r@ == "In "@ + self.yaml_path@ + ": parameter '"@ + self.parameter@
                + "' has enumOptions with escaped newlines. Use YAML multiline format instead:\n\nenumOptions: |-\n  option1\n  option2"@,
    {
        let mut out = chars_of("In ");
        let path = chars_of(self.yaml_path.as_str());
        extend_chars(&mut out, &path);
        let middle = chars_of(": parameter '");
        extend_chars(&mut out, &middle);
        let name = chars_of(self.parameter.as_str());
        extend_chars(&mut out, &name);
        let tail = chars_of(
            "' has enumOptions with escaped newlines. Use YAML multiline format instead:\n\nenumOptions: |-\n  option1\n  option2",
        );
        extend_chars(&mut out, &tail);
        string_of(&out)
    }
}

/// Whether `s` holds a backslash followed by `n`.
pub fn contains_escaped_newline(s: &str) -> (r: bool)
    ensures
        r == has_escaped_newline(s@),
{
    let c = chars_of(s);
    let mut i: usize = 0;
    while i < c.len() && i + 1 < c.len()
        invariant
            i <= c.len(),
            c@ == s@,
            forall|j: int| 0 <= j < i && j < c@.len() - 1 ==> !(#[trigger] c@[j] == '\\' && c@[j + 1] == 'n'),
        decreases c.len() - i,
    {
        if c[i] == '\\' && c[i + 1] == 'n' {
            return true;
        }
        i = i + 1;
    }
    false
}

/// Refuses a metadata file in which some parameter's enum options hold an
/// escaped newline (`\n` written as two characters), naming the first such
/// parameter; accepts it otherwise.
pub fn validate_enum_options(metadata: &QueryMetadata, yaml_path: &str) -> (r: Result<
    (),
    EscapedNewlineError,
>)
    ensures
        r is Ok <==> (forall|i: int|
            0 <= i < metadata.options.parameters@.len() ==> !escaped_enum_options(
                #[trigger] metadata.options.parameters@[i],
            )),
        r matches Err(e) ==> e.yaml_path@ == yaml_path@ && exists|k: int|
            0 <= k < metadata.options.parameters@.len() && escaped_enum_options(
                metadata.options.parameters@[k],
            ) && e.parameter@ == metadata.options.parameters@[k].name@ && (forall|j: int|
                0 <= j < k ==> !escaped_enum_options(#[trigger] metadata.options.parameters@[j])),
{
    let params = &metadata.options.parameters;
    let mut i: usize = 0;
    while i < params.len()
        invariant
            i <= params.len(),
            params == &metadata.options.parameters,
            forall|j: int| 0 <= j < i ==> !escaped_enum_options(#[trigger] params@[j]),
        decreases params.len() - i,
    {
        let p = &params[i];
        match &p.enum_options {
            Some(e) => {
                if contains_escaped_newline(e.as_str()) {
                    return Err(
                        EscapedNewlineError { yaml_path: yaml_path.to_owned(), parameter: p.name.clone() },
                    );
                }
            },
            None => {},
        }
        i = i + 1;
    }
    Ok(())
}

/// Finds the last component of a relative path, as the bounds of its text.
#[verifier::rlimit(40)]
fn last_component_bounds(p: &Vec<char>) -> (r: (usize, usize))
    ensures
        r.0 <= r.1 <= p.len(),
        p@.subrange(r.0 as int, r.1 as int) == last_component(p@),
{
    let ghost f = |c: Seq<char>| normal_component(c);
    let mut last: (usize, usize) = (0, 0);
    let mut has_last = false;
    let mut start: usize = 0;
    let mut j: usize = 0;
    proof {
        assert(p@.take(0) =~= Seq::<char>::empty());
        assert(pieces_at(p@.take(0), '/').drop_last() =~= Seq::<Seq<char>>::empty());
        assert(Seq::<Seq<char>>::empty().filter(f) =~= Seq::<Seq<char>>::empty()) by {
            reveal(Seq::filter);
        }
    }
    while j < p.len()
        invariant
            start <= j <= p.len(),
            last.0 <= last.1 <= p.len(),
            f == (|c: Seq<char>| normal_component(c)),
            pieces_at(p@.take(j as int), '/').len() >= 1,
            pieces_at(p@.take(j as int), '/').last() == p@.subrange(start as int, j as int),
            has_last == (pieces_at(p@.take(j as int), '/').drop_last().filter(f).len() > 0),
            has_last ==> p@.subrange(last.0 as int, last.1 as int) == pieces_at(
                p@.take(j as int),
                '/',
            ).drop_last().filter(f).last(),
        decreases p.len() - j,
    {
        let ghost prev = p@.take(j as int);
        let ghost pp = pieces_at(prev, '/');
        assert(p@.take(j + 1) =~= prev.push(p@[j as int]));
        assert(p@.take(j + 1).drop_last() =~= prev);
        if p[j] == '/' {
            let normal = j > start && !(j == start + 1 && p[start] == '.');
            proof {
                let np = pieces_at(p@.take(j + 1), '/');
                assert(np == pp.push(Seq::<char>::empty()));
                assert(np.drop_last() =~= pp);
                assert(pp =~= pp.drop_last().push(pp.last()));
                lemma_filter_push(pp.drop_last(), pp.last(), f);
                let cur = p@.subrange(start as int, j as int);
                if j > start + 1 {
                    assert(cur.len() != seq!['.'].len());
                }
                assert(f(cur) == normal_component(cur));
                if j == start + 1 {
                    if p@[start as int] == '.' {
                        assert(cur =~= seq!['.']);
                    } else {
                        assert(cur != seq!['.']) by {
                            assert(cur[0] != '.');
                        }
                    }
                }
                assert(normal == f(cur));
                lemma_pieces_at_len(p@.take(j + 1), '/');
                assert(np.last() =~= p@.subrange(j + 1, j + 1));
            }
            if normal {
                last = (start, j);
                has_last = true;
            }
            start = j + 1;
        } else {
            proof {
                let np = pieces_at(p@.take(j + 1), '/');
                assert(np == pp.update(pp.len() - 1, pp.last().push(p@[j as int])));
                assert(np.drop_last() =~= pp.drop_last());
                assert(np.last() =~= p@.subrange(start as int, j + 1));
            }
        }
        j = j + 1;
    }
    assert(p@.take(j as int) =~= p@);
    let ghost pp = pieces_at(p@, '/');
    proof {
        assert(pp =~= pp.drop_last().push(pp.last()));
        lemma_filter_push(pp.drop_last(), pp.last(), f);
        let cur = p@.subrange(start as int, j as int);
        if j > start + 1 {
            assert(cur.len() != seq!['.'].len());
        }
        assert(f(cur) == normal_component(cur));
        if j == start + 1 {
            if p@[start as int] == '.' {
                assert(cur =~= seq!['.']);
            } else {
                assert(cur != seq!['.']) by {
                    assert(cur[0] != '.');
                }
            }
        }
    }
    let normal = j > start && !(j == start + 1 && p[start] == '.');
    if normal {
        (start, j)
    } else if has_last {
        last
    } else {
        proof {
            assert(p@.subrange(0, 0) =~= Seq::<char>::empty());
        }
        (0, 0)
    }
}

/// Folds an ASCII letter to lower case.
fn ascii_lower_char(c: char) -> (r: char)
    ensures
        r == ascii_lower(c),
{
    if 'A' <= c && c <= 'Z' {
        let b: u8 = (c as u8) + 32u8;
        assert(b as int == c as u32 + 32);
        b as char
    } else {
        c
    }
}

/// Whether `s[start..end]` equals `lit` up to ASCII case.
fn range_eq_ignore_ascii_case(s: &Vec<char>, start: usize, end: usize, lit: &Vec<char>) -> (r: bool)
    requires
        start <= end <= s.len(),
    ensures
        r == eq_ignore_ascii_case(s@.subrange(start as int, end as int), lit@),
{
    let ghost a = s@.subrange(start as int, end as int);
    if end - start != lit.len() {
        return false;
    }
    let mut k: usize = 0;
    while k < lit.len()
        invariant
            end - start == lit.len(),
            start <= end <= s.len(),
            a == s@.subrange(start as int, end as int),
            k <= lit.len(),
            forall|j: int| 0 <= j < k ==> ascii_lower(#[trigger] a[j]) == ascii_lower(lit@[j]),
        decreases lit.len() - k,
    {
        let x = s[start + k];
        let y = lit[k];
        let lx = ascii_lower_char(x);
        let ly = ascii_lower_char(y);
        assert(a[k as int] == x);
        if lx != ly {
            return false;
        }
        k = k + 1;
    }
    true
}

/// The query that one line of `git status --porcelain` output reports as
/// changed, if any.
#[verifier::rlimit(40)]
pub fn status_line_id(line: &Vec<char>) -> (r: Option<u64>)
    requires
        status_line_sliceable(line@),
    ensures
        r == status_line_query_id(line@),
{
    // find the character that starts at byte 3
    let mut k: usize = 0;
    let mut off: usize = 0;
    while off < 3 && k < line.len()
        invariant
            k <= line.len(),
            off <= 6,
            byte_len(line@) == off + bytes_from(line@, k as int),
            char_index_at_byte(line@, 3) == index_at_byte_from(line@, k as int, off as int, 3),
            off < 3 || k > 0,
        decreases line.len() - k,
    {
        off = off + char_width(line[k]);
        k = k + 1;
    }
    if off < 3 {
        assert(bytes_from(line@, k as int) == 0);
        return None;
    }
    if off > 3 {
        assert(char_index_at_byte(line@, 3) is None);
        assert(bytes_from(line@, k as int) >= 0) by {
            lemma_bytes_from_nonneg(line@, k as int);
        }
        assert(false);
        return None;
    }
    proof {
        lemma_bytes_from_nonneg(line@, k as int);
    }
    assert(status_path(line@) == Some(line@.skip(k as int)));
    let mut path: Vec<char> = Vec::new();
    let mut i = k;
    while i < line.len()
        invariant
            k <= i <= line.len(),
            path@ == line@.subrange(k as int, i as int),
        decreases line.len() - i,
    {
        path.push(line[i]);
        i = i + 1;
        assert(path@ =~= line@.subrange(k as int, i as int));
    }
    assert(path@ =~= line@.skip(k as int));
    let prefix = chars_of("queries/");
    proof {
        reveal_strlit("queries/");
    }
    assert(prefix@ =~= queries_dir_prefix());
    if path.len() < 8 || !crate::text::range_eq(&path, 0, 8, &prefix) {
        proof {
            if path@.len() >= 8 {
                assert(path@.subrange(0, 8) =~= path@.take(8));
            }
        }
        return None;
    }
    assert(path@.subrange(0, 8) =~= path@.take(8));
    let (cs, ce) = last_component_bounds(&path);
    let mut comp: Vec<char> = Vec::new();
    let mut t = cs;
    while t < ce
        invariant
            cs <= t <= ce <= path.len(),
            comp@ == path@.subrange(cs as int, t as int),
        decreases ce - t,
    {
        comp.push(path[t]);
        t = t + 1;
        assert(comp@ =~= path@.subrange(cs as int, t as int));
    }
    let ext_ok = match extension_bounds(&comp) {
        None => false,
        Some(e) => {
            let sql = chars_of("sql");
            let yaml = chars_of("yaml");
            proof {
                reveal_strlit("sql");
                reveal_strlit("yaml");
            }
            assert(sql@ =~= sql_ext());
            assert(yaml@ =~= yaml_ext());
            assert(comp@.subrange(e as int, comp.len() as int) =~= comp@.skip(e as int));
            range_eq_ignore_ascii_case(&comp, e, comp.len(), &sql) || range_eq_ignore_ascii_case(
                &comp,
                e,
                comp.len(),
                &yaml,
            )
        },
    };
    if !ext_ok {
        return None;
    }
    let mut name: Vec<char> = Vec::new();
    let mut u: usize = 8;
    while u < path.len()
        invariant
            8 <= u <= path.len(),
            name@ == path@.subrange(8, u as int),
        decreases path.len() - u,
    {
        name.push(path[u]);
        u = u + 1;
        assert(name@ =~= path@.subrange(8, u as int));
    }
    assert(name@ =~= path@.skip(8));
    let name_string = string_of(&name);
    leading_query_id(name_string.as_str())
}

/// The ids of the queries that `git status --porcelain` output reports as
/// changed, in increasing order and each once.
#[verifier::rlimit(40)]
pub fn changed_query_ids(output: &str) -> (r: Vec<u64>)
    requires
        status_output_sliceable(output@),
    ensures
        strictly_increasing(r@),
        forall|id: u64| r@.contains(id) <==> status_reports(output@, id),
{
    let c = chars_of(output);
    let ghost s = c@;
    let ghost lines = text_lines(s);
    let mut ids: Vec<u64> = Vec::new();
    let mut start: usize = 0;
    let mut j: usize = 0;
    proof {
        assert(s.take(0) =~= Seq::<char>::empty());
        lemma_pieces_at_len(s, '\n');
    }
    while j < c.len()
        invariant
            start <= j <= c.len(),
            c@ == s,
            s == output@,
            lines == text_lines(s),
            status_output_sliceable(s),
            strictly_increasing(ids@),
            pieces_at(s.take(j as int), '\n').len() >= 1,
            pieces_at(s.take(j as int), '\n').last() == s.subrange(start as int, j as int),
            forall|id: u64|
                ids@.contains(id) <==> exists|i: int|
                    0 <= i < pieces_at(s.take(j as int), '\n').drop_last().len() && status_line_query_id(
                        strip_cr(#[trigger] pieces_at(s.take(j as int), '\n').drop_last()[i]),
                    ) == Some(id),
        decreases c.len() - j,
    {
        let ghost prev = s.take(j as int);
        let ghost pp = pieces_at(prev, '\n');
        assert(s.take(j + 1) =~= prev.push(s[j as int]));
        assert(s.take(j + 1).drop_last() =~= prev);
        if c[j] == '\n' {
            let mut end = j;
            if end > start && c[end - 1] == '\r' {
                end = end - 1;
            }
            let line = crate::text::copy_range(&c, start, end);
            let ghost np = pieces_at(s.take(j + 1), '\n');
            proof {
                assert(np == pp.push(Seq::<char>::empty()));
                assert(np.drop_last() =~= pp);
                let cur = s.subrange(start as int, j as int);
                assert(line@ =~= strip_cr(cur));
                let k = pp.len() - 1;
                lemma_pieces_at_prefix(s, '\n', j + 1);
                assert(np.drop_last()[k] == pieces_at(s, '\n').drop_last()[k]);
                assert(lines[k] == strip_cr(pieces_at(s, '\n').drop_last()[k]));
                assert(status_line_sliceable(lines[k]));
                lemma_pieces_at_len(s.take(j + 1), '\n');
                assert(np.last() =~= s.subrange(j + 1, j + 1));
            }
            let found = status_line_id(&line);
            let ghost before = ids@;
            match found {
                Some(id) => insert_id(&mut ids, id),
                None => {},
            }
            proof {
                let k = pp.len() - 1;
                assert forall|id: u64| ids@.contains(id) <==> exists|i: int|
                    0 <= i < np.drop_last().len() && status_line_query_id(
                        strip_cr(#[trigger] np.drop_last()[i]),
                    ) == Some(id) by {
                    if ids@.contains(id) {
                        if before.contains(id) {
                            let i = choose|i: int|
                                0 <= i < pp.drop_last().len() && status_line_query_id(
                                    strip_cr(#[trigger] pp.drop_last()[i]),
                                ) == Some(id);
                            assert(np.drop_last()[i] == pp.drop_last()[i]);
                        } else {
                            assert(np.drop_last()[k] == pp.last());
                        }
                    }
                    if exists|i: int|
                        0 <= i < np.drop_last().len() && status_line_query_id(
                            strip_cr(#[trigger] np.drop_last()[i]),
                        ) == Some(id) {
                        let i = choose|i: int|
                            0 <= i < np.drop_last().len() && status_line_query_id(
                                strip_cr(#[trigger] np.drop_last()[i]),
                            ) == Some(id);
                        if i < k {
                            assert(np.drop_last()[i] == pp.drop_last()[i]);
                        } else {
                            assert(np.drop_last()[i] == pp.last());
                        }
                    }
                }
            }
            start = j + 1;
        } else {
            proof {
                let np = pieces_at(s.take(j + 1), '\n');
                assert(np == pp.update(pp.len() - 1, pp.last().push(s[j as int])));
                assert(np.drop_last() =~= pp.drop_last());
                assert(np.last() =~= s.subrange(start as int, j + 1));
            }
        }
        j = j + 1;
    }
    assert(s.take(j as int) =~= s);
    let ghost ps = pieces_at(s, '\n');
    let ghost body = ps.drop_last().map_values(|l: Seq<char>| strip_cr(l));
    if start < c.len() {
        let line = crate::text::copy_range(&c, start, c.len());
        proof {
            assert(lines == body.push(ps.last()));
            assert(lines[body.len() as int] == ps.last());
        }
        let found = status_line_id(&line);
        let ghost before = ids@;
        match found {
            Some(id) => insert_id(&mut ids, id),
            None => {},
        }
        proof {
            assert forall|id: u64| ids@.contains(id) <==> status_reports(output@, id) by {
                if ids@.contains(id) {
                    if before.contains(id) {
                        let i = choose|i: int|
                            0 <= i < ps.drop_last().len() && status_line_query_id(
                                strip_cr(#[trigger] ps.drop_last()[i]),
                            ) == Some(id);
                        assert(lines[i] == body[i]);
                    } else {
                        assert(lines[body.len() as int] == ps.last());
                    }
                }
                if status_reports(output@, id) {
                    let i = choose|i: int|
                        0 <= i < lines.len() && status_line_query_id(#[trigger] lines[i]) == Some(id);
                    if i < body.len() {
                        assert(lines[i] == body[i]);
                        assert(body[i] == strip_cr(ps.drop_last()[i]));
                    }
                }
            }
        }
    } else {
        proof {
            assert(ps.last().len() == 0);
            assert(lines == body);
            assert forall|id: u64| ids@.contains(id) <==> status_reports(output@, id) by {
                if ids@.contains(id) {
                    let i = choose|i: int|
                        0 <= i < ps.drop_last().len() && status_line_query_id(
                            strip_cr(#[trigger] ps.drop_last()[i]),
                        ) == Some(id);
                    assert(lines[i] == body[i]);
                }
                if status_reports(output@, id) {
                    let i = choose|i: int|
                        0 <= i < lines.len() && status_line_query_id(#[trigger] lines[i]) == Some(id);
                    assert(lines[i] == body[i]);
                    assert(body[i] == strip_cr(ps.drop_last()[i]));
                }
            }
        }
    }
    ids
}

/// A local query: its id and its name, as its metadata file gives them.
pub type QueryEntry = (u64, String);

/// The entries whose id is among `ids`, in their order.
pub open spec fn entries_among(s: Seq<QueryEntry>, ids: Seq<u64>) -> Seq<QueryEntry> {
    s.filter(|e: QueryEntry| ids.contains(e.0))
}

impl Identified for QueryEntry {
    open spec fn key_id(&self) -> u64 {
        self.0
    }

    fn id_key(&self) -> (r: u64) {
        self.0
    }
}

/// The entries whose id is among `ids`, in their order.
pub fn select_by_ids(entries: Vec<QueryEntry>, ids: &Vec<u64>) -> (r: Vec<QueryEntry>)
    ensures
        r@ == entries_among(entries@, ids@),
{
    broadcast use vstd::std_specs::vec::group_vec_axioms;

    let ghost input = entries@;
    let ghost p = |e: QueryEntry| ids@.contains(e.0);
    let mut out: Vec<QueryEntry> = Vec::new();
    proof {
        assert(input.take(0) =~= Seq::<QueryEntry>::empty());
        assert(Seq::<QueryEntry>::empty().filter(p) =~= Seq::<QueryEntry>::empty()) by {
            reveal(Seq::filter);
        }
    }
    for e in it: entries
        invariant
            it.seq() == input,
            p == (|e: QueryEntry| ids@.contains(e.0)),
            out@ == input.take(it.index() as int).filter(p),
    {
        let ghost i = it.index() as int;
        proof {
            assert(input[i] == e);
            assert(input.take(i + 1) =~= input.take(i).push(e));
            lemma_filter_push(input.take(i), e, p);
        }
        if crate::id_set::contains_id(ids, e.0) {
            out.push(e);
        }
    }
    proof {
        assert(input.take(input.len() as int) =~= input);
    }
    out
}

/// None of the query ids asked for has a metadata file.
#[derive(Debug, Clone, Copy, PartialEq, Eq, Structural)]
pub struct NoRequestedQueries;

impl NoRequestedQueries {
    /// The message that says so.
    pub fn to_string(&self) -> (r: String)
        ensures
            r@ == "None of the specified query IDs were found in queries/ directory"@,
    {
        let c = chars_of("None of the specified query IDs were found in queries/ directory");
        string_of(&c)
    }
}

/// The local queries to deploy when ids were asked for: those among the
/// ids, in order; refused when there is none.
pub fn select_requested(entries: Vec<QueryEntry>, requested: &Vec<u64>) -> (r: Result<
    Vec<QueryEntry>,
    NoRequestedQueries,
>)
    ensures
        match r {
            Ok(v) => v@ == entries_among(entries@, requested@) && v@.len() > 0,
            Err(_) => entries_among(entries@, requested@).len() == 0,
        },
{
    let selected = select_by_ids(entries, requested);
    if selected.len() == 0 {
        Err(NoRequestedQueries)
    } else {
        Ok(selected)
    }
}

/// Where the queries to deploy are taken from.
#[derive(Debug, Clone, Copy, PartialEq, Eq, Structural)]
pub enum DeploySource {
    /// The query ids given on the command line.
    Requested,
    /// Every local query (`--all`).
    All,
    /// The queries whose files `git status` reports as changed.
    Changed,
}

/// Where the queries to deploy are taken from: the ids asked for when there
/// are any, else every local query with `--all`, else the changed ones.
pub open spec fn source_of(requested: Seq<u64>, all: bool) -> DeploySource {
    if requested.len() > 0 {
        DeploySource::Requested
    } else if all {
        DeploySource::All
    } else {
        DeploySource::Changed
    }
}

/// Decides where the queries to deploy are taken from.
pub fn deploy_source(requested: &Vec<u64>, all: bool) -> (r: DeploySource)
    ensures
        r == source_of(requested@, all),
{
    if requested.len() > 0 {
        DeploySource::Requested
    } else if all {
        DeploySource::All
    } else {
        DeploySource::Changed
    }
}

/// The local queries a deploy works on.
#[derive(Debug)]
pub enum DeploySelection {
    /// These queries, in their order.
    Queries(Vec<QueryEntry>),
    /// Nothing was asked for and no query file has changed.
    NothingChanged,
}

/// Chooses the local queries to deploy, from the local queries (`entries`),
/// the ids asked for, the `--all` flag and the ids of the changed queries
/// (read only when neither ids nor `--all` were given): the entries among
/// the requested ids, refused when there is none; every entry with `--all`;
/// else the entries among the changed ids, or nothing at all when no query
/// changed.
pub fn select_for_deploy(
    entries: Vec<QueryEntry>,
    requested: &Vec<u64>,
    all: bool,
    changed: &Vec<u64>,
) -> (r: Result<DeploySelection, NoRequestedQueries>)
    ensures
        source_of(requested@, all) == DeploySource::Requested ==> match r {
            Ok(DeploySelection::Queries(v)) => v@ == entries_among(entries@, requested@) && v@.len() > 0,
            Ok(DeploySelection::NothingChanged) => false,
            Err(_) => entries_among(entries@, requested@).len() == 0,
        },
        source_of(requested@, all) == DeploySource::All ==> (r matches Ok(DeploySelection::Queries(v))
            && v@ == entries@),
        source_of(requested@, all) == DeploySource::Changed ==> (if changed@.len() == 0 {
            r matches Ok(DeploySelection::NothingChanged)
        } else {
            r matches Ok(DeploySelection::Queries(v)) && v@ == entries_among(entries@, changed@)
        }),
{
    match deploy_source(requested, all) {
        DeploySource::Requested => match select_requested(entries, requested) {
            Ok(v) => Ok(DeploySelection::Queries(v)),
            Err(e) => Err(e),
        },
        DeploySource::All => Ok(DeploySelection::Queries(entries)),
        DeploySource::Changed => {
            if changed.len() == 0 {
                Ok(DeploySelection::NothingChanged)
            } else {
                Ok(DeploySelection::Queries(select_by_ids(entries, changed)))
            }
        },
    }
}

/// What to do with one visualization of a deployed query.
#[derive(Debug)]
pub enum VisualizationDeploy {
    /// The visualization has id 0: it is new and is created.
    Create(CreateVisualization),
    /// The visualization exists: it is overwritten.
    Update(Visualization),
}

/// The request that creates a visualization for a query.
pub open spec fn creation_request(query_id: u64, viz: Visualization) -> CreateVisualization {
    CreateVisualization {
        query_id,
        name: viz.name,
        viz_type: viz.viz_type,
        options: viz.options,
        description: viz.description,
    }
}

/// What deploying a visualization means: creating it when its id is 0,
/// overwriting it otherwise.
pub open spec fn visualization_step(query_id: u64, viz: Visualization) -> VisualizationDeploy {
    if viz.id == 0 {
        VisualizationDeploy::Create(creation_request(query_id, viz))
    } else {
        VisualizationDeploy::Update(viz)
    }
}

/// The request that creates a new visualization carries every field of the
/// visualization unchanged, for the query it belongs to.
pub proof fn lemma_creation_request_keeps_fields(query_id: u64, viz: Visualization)
    ensures
        creation_request(query_id, viz).query_id == query_id,
        creation_request(query_id, viz).name == viz.name,
        creation_request(query_id, viz).viz_type == viz.viz_type,
        creation_request(query_id, viz).options == viz.options,
        creation_request(query_id, viz).description == viz.description,
        visualization_step(query_id, viz) == (if viz.id == 0 {
            VisualizationDeploy::Create(
                CreateVisualization {
                    query_id,
                    name: viz.name,
                    viz_type: viz.viz_type,
                    options: viz.options,
                    description: viz.description,
                },
            )
        } else {
            VisualizationDeploy::Update(viz)
        }),
{
}

impl CreateVisualization {
    /// The request that creates `viz` for query `query_id`.
    pub fn for_query(query_id: u64, viz: Visualization) -> (c: CreateVisualization)
        ensures
            c == creation_request(query_id, viz),
    {
        CreateVisualization {
            query_id,
            name: viz.name,
            viz_type: viz.viz_type,
            options: viz.options,
            description: viz.description,
        }
    }
}

/// The steps that deploy a query's visualizations, one per visualization and
/// in their order.
pub fn plan_visualizations(query_id: u64, visualizations: Vec<Visualization>) -> (r: Vec<
    VisualizationDeploy,
>)
    ensures
        r@.len() == visualizations@.len(),
        forall|i: int|
            0 <= i < r@.len() ==> #[trigger] r@[i] == visualization_step(query_id, visualizations@[i]),
{
    broadcast use vstd::std_specs::vec::group_vec_axioms;

    let ghost input = visualizations@;
    let mut out: Vec<VisualizationDeploy> = Vec::new();
    for viz in it: visualizations
        invariant
            it.seq() == input,
            out@.len() == it.index(),
            forall|i: int| 0 <= i < out@.len() ==> #[trigger] out@[i] == visualization_step(query_id, input[i]),
    {
        let ghost i = it.index() as int;
        assert(input[i] == viz);
        if viz.id == 0 {
            out.push(VisualizationDeploy::Create(CreateVisualization::for_query(query_id, viz)));
        } else {
            out.push(VisualizationDeploy::Update(viz));
        }
    }
    out
}


/// The visualization is new: it has id 0.
pub open spec fn is_new_visualization(v: Visualization) -> bool {
    v.id == 0
}

/// How many of the first `i` visualizations are new.
pub open spec fn new_before(s: Seq<Visualization>, i: int) -> nat {
    s.take(i).filter(|v: Visualization| is_new_visualization(v)).len()
}

/// `viz` with its id replaced by `id`.
pub open spec fn with_id(viz: Visualization, id: u64) -> Visualization {
    Visualization { id, name: viz.name, viz_type: viz.viz_type, options: viz.options, description: viz.description }
}

/// What deploying the `i`-th visualization of a query that was just created
/// means, given the ids of the visualizations Redash made for it on its
/// own: the `n`-th new visualization takes over the `n`-th of those and
/// overwrites it, while there is one left; every other visualization is
/// deployed as usual.
pub open spec fn new_query_step(query_id: u64, s: Seq<Visualization>, existing: Seq<u64>, i: int) -> VisualizationDeploy {
    let viz = s[i];
    let n = new_before(s, i);
    if is_new_visualization(viz) && n < existing.len() {
        VisualizationDeploy::Update(with_id(viz, existing[n as int]))
    } else {
        visualization_step(query_id, viz)
    }
}

/// The steps that deploy the visualizations of a query that was just
/// created, one per visualization and in their order: the new ones take over
/// the visualizations Redash made on its own (`existing`, in order) before any
/// is created, so that none is left over as a duplicate.
#[verifier::rlimit(40)]
pub fn plan_new_query_visualizations(
    query_id: u64,
    visualizations: Vec<Visualization>,
    existing: &Vec<u64>,
) -> (r: Vec<VisualizationDeploy>)
    ensures
        r@.len() == visualizations@.len(),
        forall|i: int|
            0 <= i < r@.len() ==> #[trigger] r@[i] == new_query_step(query_id, visualizations@, existing@, i),
{
    broadcast use vstd::std_specs::vec::group_vec_axioms;

    let ghost input = visualizations@;
    let ghost f = |v: Visualization| is_new_visualization(v);
    let mut out: Vec<VisualizationDeploy> = Vec::new();
    let mut used: usize = 0;
    let count = visualizations.len();
    assert(input.len() == count);
    proof {
        assert(input.take(0) =~= Seq::<Visualization>::empty());
        assert(Seq::<Visualization>::empty().filter(f) =~= Seq::<Visualization>::empty()) by {
            reveal(Seq::filter);
        }
    }
    for viz in it: visualizations
        invariant
            it.seq() == input,
            f == (|v: Visualization| is_new_visualization(v)),
            out@.len() == it.index(),
            used == new_before(input, it.index() as int),
            used <= it.index(),
            input.len() <= usize::MAX,
            forall|i: int|
                0 <= i < out@.len() ==> #[trigger] out@[i] == new_query_step(query_id, input, existing@, i),
    {
        let ghost i = it.index() as int;
        assert(input[i] == viz);
        proof {
            assert(input.take(i + 1) =~= input.take(i).push(viz));
            lemma_filter_push(input.take(i), viz, f);
        }
        if viz.id == 0 {
            if used < existing.len() {
                let id = existing[used];
                out.push(
                    VisualizationDeploy::Update(
                        Visualization {
                            id,
                            name: viz.name,
                            viz_type: viz.viz_type,
                            options: viz.options,
                            description: viz.description,
                        },
                    ),
                );
            } else {
                out.push(VisualizationDeploy::Create(CreateVisualization::for_query(query_id, viz)));
            }
            used = used + 1;
        } else {
            out.push(VisualizationDeploy::Update(viz));
        }
    }
    out
}

/// Of two new visualizations of a just-created query, the later one takes
/// over a later visualization of Redash's, or none: no visualization that
/// Redash made is taken over twice.
pub proof fn lemma_new_visualizations_take_distinct(s: Seq<Visualization>, i: int, j: int)
    requires
        0 <= i < j < s.len(),
        is_new_visualization(s[i]),
        is_new_visualization(s[j]),
    ensures
        new_before(s, i) < new_before(s, j),
{
    let f = |v: Visualization| is_new_visualization(v);
    assert(s.take(j) =~= s.take(i + 1) + s.take(j).skip(i + 1));
    Seq::filter_distributes_over_add(s.take(i + 1), s.take(j).skip(i + 1), f);
    assert(s.take(i + 1) =~= s.take(i).push(s[i]));
    lemma_filter_push(s.take(i), s[i], f);
}


/// A new visualization of a just-created query that takes over one of
/// Redash's keeps all its own fields but the id, which becomes that of the
/// visualization taken over; with none left, it is created with all its
/// fields; a visualization with an id is overwritten as it is.
pub proof fn lemma_new_query_step_keeps_fields(query_id: u64, s: Seq<Visualization>, existing: Seq<u64>, i: int)
    requires
        0 <= i < s.len(),
    ensures
        s[i].id == 0 && new_before(s, i) < existing.len() ==> new_query_step(query_id, s, existing, i)
            == VisualizationDeploy::Update(
            Visualization {
                id: existing[new_before(s, i) as int],
                name: s[i].name,
                viz_type: s[i].viz_type,
                options: s[i].options,
                description: s[i].description,
            },
        ),
        s[i].id == 0 && new_before(s, i) >= existing.len() ==> new_query_step(query_id, s, existing, i)
            == VisualizationDeploy::Create(
            CreateVisualization {
                query_id,
                name: s[i].name,
                viz_type: s[i].viz_type,
                options: s[i].options,
                description: s[i].description,
            },
        ),
        s[i].id != 0 ==> new_query_step(query_id, s, existing, i) == VisualizationDeploy::Update(s[i]),
{
}

} // verus!
