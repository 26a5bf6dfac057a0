//! What `discover` prints about the queries and dashboards it finds.
use vstd::prelude::*;
use crate::text::{chars_of, decimal, extend_chars, push_decimal, string_of};

verus! {

/// ` [DRAFT]` for a draft, nothing otherwise.
pub open spec fn draft_tag(is_draft: bool) -> Seq<char> {
    if is_draft {
        " [DRAFT]"@
    } else {
        Seq::<char>::empty()
    }
}

/// ` [ARCHIVED]` for an archived query, nothing otherwise.
pub open spec fn archived_tag(is_archived: bool) -> Seq<char> {
    if is_archived {
        " [ARCHIVED]"@
    } else {
        Seq::<char>::empty()
    }
}

/// Appends the tag for a draft.
fn push_draft_tag(out: &mut Vec<char>, is_draft: bool)
    ensures
        final(out)@ == old(out)@ + draft_tag(is_draft),
{
    if is_draft {
        let t = chars_of(" [DRAFT]");
        extend_chars(out, &t);
    } else {
        assert(old(out)@ + Seq::<char>::empty() =~= old(out)@);
    }
}

/// The two lines that present a query or dashboard found by a search:
/// `  {id} - {name}[ [DRAFT]]` and, below, `  {url}`.
pub fn format_resource_line(id: u64, name: &str, url: &str, is_draft: bool) -> (r: String)
    ensures
        r@ == "  "@ + decimal(id as nat) + " - "@ + name@ + draft_tag(is_draft) + "\n  "@ + url@,
{
    let mut out = chars_of("  ");
    push_decimal(&mut out, id);
    let sep = chars_of(" - ");
    extend_chars(&mut out, &sep);
    let n = chars_of(name);
    extend_chars(&mut out, &n);
    push_draft_tag(&mut out, is_draft);
    let nl = chars_of("\n  ");
    extend_chars(&mut out, &nl);
    let u = chars_of(url);
    extend_chars(&mut out, &u);
    string_of(&out)
}

/// The line that lists one of the caller's own queries:
/// `  {id} - {name}[ [ARCHIVED]][ [DRAFT]]`.
pub fn own_query_line(id: u64, name: &str, is_archived: bool, is_draft: bool) -> (r: String)
    ensures
        r@ == "  "@ + decimal(id as nat) + " - "@ + name@ + archived_tag(is_archived) + draft_tag(is_draft),
{
    let mut out = chars_of("  ");
    push_decimal(&mut out, id);
    let sep = chars_of(" - ");
    extend_chars(&mut out, &sep);
    let n = chars_of(name);
    extend_chars(&mut out, &n);
    if is_archived {
        let t = chars_of(" [ARCHIVED]");
        extend_chars(&mut out, &t);
    } else {
        assert(out@ + Seq::<char>::empty() =~= out@);
    }
    push_draft_tag(&mut out, is_draft);
    string_of(&out)
}

/// The hint printed after the list of the caller's own queries: fetch the
/// first one when a `queries/` directory is here, set one up first when it
/// is not, and search for other people's queries when there are none.
pub open spec fn next_steps_message(queries_dir_exists: bool, first_query_id: Option<u64>) -> Seq<char> {
    match first_query_id {
        Some(id) => if queries_dir_exists {
            "\nNext: stmo-cli fetch "@ + decimal(id as nat)
        } else {
            "\nNo queries/ directory here.\nRun 'stmo-cli init <dir>' to set one up, then 'stmo-cli fetch "@
                + decimal(id as nat) + "'."@
        },
        None => "\nNo queries of your own on Redash yet.\nTry 'stmo-cli discover --search <term>' to find other people's."@,
    }
}

/// Writes the hint printed after the list of the caller's own queries.
pub fn next_steps(queries_dir_exists: bool, first_query_id: Option<u64>) -> (r: String)
    ensures
        r@ == next_steps_message(queries_dir_exists, first_query_id),
{
    match first_query_id {
        Some(id) => {
            if queries_dir_exists {
                let mut out = chars_of("\nNext: stmo-cli fetch ");
                push_decimal(&mut out, id);
                string_of(&out)
            } else {
                let mut out = chars_of(
                    "\nNo queries/ directory here.\nRun 'stmo-cli init <dir>' to set one up, then 'stmo-cli fetch ",
                );
                push_decimal(&mut out, id);
                let tail = chars_of("'.");
                extend_chars(&mut out, &tail);
                string_of(&out)
            }
        },
        None => {
            let c = chars_of(
                "\nNo queries of your own on Redash yet.\nTry 'stmo-cli discover --search <term>' to find other people's.",
            );
            string_of(&c)
        },
    }
}

/// The page of a query on Redash.
pub fn query_page_url(base: &str, id: u64) -> (r: String)
    ensures
        r@ == base@ + "/queries/"@ + decimal(id as nat),
{
    let mut out = chars_of(base);
    let p = chars_of("/queries/");
    extend_chars(&mut out, &p);
    push_decimal(&mut out, id);
    string_of(&out)
}

/// The page of a dashboard on Redash.
pub fn dashboard_page_url(base: &str, slug: &str) -> (r: String)
    ensures
        r@ == base@ + "/dashboard/"@ + slug@,
{
    let mut out = chars_of(base);
    let p = chars_of("/dashboard/");
    extend_chars(&mut out, &p);
    let s = chars_of(slug);
    extend_chars(&mut out, &s);
    string_of(&out)
}

/// A query or dashboard found by a search: its id, name and page, and
/// whether it is a draft.
#[derive(Debug)]
pub struct SearchHit {
    pub id: u64,
    pub name: String,
    pub url: String,
    pub is_draft: bool,
}

/// Which kind of resources a search section lists.
#[derive(Debug, Clone, Copy, PartialEq, Eq, Structural)]
pub enum SearchKind {
    Queries,
    Dashboards,
}

/// The heading word of a section.
pub open spec fn kind_heading(kind: SearchKind) -> Seq<char> {
    match kind {
        SearchKind::Queries => "QUERIES"@,
        SearchKind::Dashboards => "DASHBOARDS"@,
    }
}

/// The word for the resources of a section in running text.
pub open spec fn kind_word(kind: SearchKind) -> Seq<char> {
    match kind {
        SearchKind::Queries => "queries"@,
        SearchKind::Dashboards => "dashboards"@,
    }
}

/// The presentation of one found resource.
pub open spec fn hit_lines(h: SearchHit) -> Seq<char> {
    "  "@ + decimal(h.id as nat) + " - "@ + h.name@ + draft_tag(h.is_draft) + "\n  "@ + h.url@
}

/// The lines of one section of search results, as printed one per line: a
/// heading with the count; then either a note that nothing was found, or
/// each hit followed, when the hits fill the limit, by a note that more may
/// exist.
pub open spec fn section_lines(kind: SearchKind, term: Seq<char>, limit: usize, hits: Seq<SearchHit>) -> Seq<
    Seq<char>,
> {
    seq!["=== "@ + kind_heading(kind) + " ("@ + decimal(hits.len()) + ") ===\n"@] + if hits.len() == 0 {
        seq!["  No "@ + kind_word(kind) + " found for '"@ + term + "'."@]
    } else {
        hits.map_values(|h: SearchHit| hit_lines(h)) + if hits.len() == limit {
            seq!["\n  (showing first "@ + decimal(limit as nat) + "; raise --limit for more)"@]
        } else {
            Seq::<Seq<char>>::empty()
        }
    }
}

/// The views of the lines.
pub open spec fn views_of(lines: Seq<String>) -> Seq<Seq<char>> {
    lines.map_values(|l: String| l@)
}

/// Writes one section of search results.
pub fn search_section(kind: SearchKind, term: &str, limit: usize, hits: &Vec<SearchHit>) -> (r: Vec<String>)
    ensures
        views_of(r@) == section_lines(kind, term@, limit, hits@),
{
    let mut lines: Vec<String> = Vec::new();
    let mut head = chars_of("=== ");
    let word = match kind {
        SearchKind::Queries => chars_of("QUERIES"),
        SearchKind::Dashboards => chars_of("DASHBOARDS"),
    };
    extend_chars(&mut head, &word);
    let open = chars_of(" (");
    extend_chars(&mut head, &open);
    push_decimal(&mut head, hits.len() as u64);
    let close = chars_of(") ===\n");
    extend_chars(&mut head, &close);
    lines.push(string_of(&head));
    if hits.len() == 0 {
        let mut l = chars_of("  No ");
        let w = match kind {
            SearchKind::Queries => chars_of("queries"),
            SearchKind::Dashboards => chars_of("dashboards"),
        };
        extend_chars(&mut l, &w);
        let a = chars_of(" found for '");
        extend_chars(&mut l, &a);
        let t = chars_of(term);
        extend_chars(&mut l, &t);
        let b = chars_of("'.");
        extend_chars(&mut l, &b);
        lines.push(string_of(&l));
        assert(views_of(lines@) =~= section_lines(kind, term@, limit, hits@));
        return lines;
    }
    let mut i: usize = 0;
    while i < hits.len()
        invariant
            i <= hits.len(),
            lines@.len() == i + 1,
            views_of(lines@) =~= seq![
                "=== "@ + kind_heading(kind) + " ("@ + decimal(hits@.len()) + ") ===\n"@,
            ] + hits@.take(i as int).map_values(|h: SearchHit| hit_lines(h)),
        decreases hits.len() - i,
    {
        let h = &hits[i];
        let line = format_resource_line(h.id, h.name.as_str(), h.url.as_str(), h.is_draft);
        let ghost before = lines@;
        lines.push(line);
        proof {
            assert(hits@.take(i + 1) =~= hits@.take(i as int).push(hits@[i as int]));
            assert(views_of(lines@) =~= views_of(before).push(hit_lines(hits@[i as int])));
        }
        i = i + 1;
    }
    assert(hits@.take(i as int) =~= hits@);
    if hits.len() == limit {
        let mut l = chars_of("\n  (showing first ");
        push_decimal(&mut l, limit as u64);
        let t = chars_of("; raise --limit for more)");
        extend_chars(&mut l, &t);
        let ghost before = lines@;
        lines.push(string_of(&l));
        assert(views_of(lines@) =~= views_of(before).push(l@));
    }
    assert(views_of(lines@) =~= section_lines(kind, term@, limit, hits@));
    lines
}

} // verus!
