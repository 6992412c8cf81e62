//! Human-readable output, kept in the spirit of `apt list`.
//!
//! Every package-listing mode renders the same four columns
//! (PACKAGE/VERSION/ARCH/REPOSITORY); a `--repo` filter narrows the rows,
//! never the columns. The repository catalog table (`--repos`) is one row
//! per repository and suite; the wider Release-file metadata (origin, label,
//! codename, index filenames) is available through `--json`.
//!
//! Cells are kept pipeline-friendly: multi-value cells are joined by a
//! comma without a space, so every cell is a single whitespace-free token
//! and the alignment padding is the column separator. Without the header
//! row (`--no-headers`), rows can be piped straight into `sort -k<n>` or
//! `awk`. The one exception is the row-final `[installed]` marker of
//! package queries, which follows the REPOSITORY cell after two spaces.
use vstd::prelude::*;
use vstd::string::{StrSliceExecFns, StringExecFns};

use crate::apt::{counted_names, suite_package_count, PackageCounts, SuiteNameView};
use crate::query::{VersionRow, VersionRowView};
use crate::repository::{
    distinct, distinct_some, fields, index_views, normalize_uri_spec, IndexField, RepoCatalog,
    RepoIndex, RepoIndexView, RepositoryView,
};
use crate::text::{
    chars_of, decimal, decimal_string, join, join_strings, push_all, push_spaces, spaces, string_of,
    views,
};

verus! {

// ---------------------------------------------------------------------------
// Tables
// ---------------------------------------------------------------------------
/// The larger of two numbers.
pub open spec fn max_nat(a: nat, b: nat) -> nat {
    if a >= b {
        a
    } else {
        b
    }
}

/// The padding after a cell of `c` characters in a column `w` wide.
pub open spec fn pad_of(w: nat, c: nat) -> nat {
    if w >= c {
        (w - c) as nat
    } else {
        0
    }
}

/// The first `k` cells, each followed by its padding and two spaces.
pub open spec fn padded_cells(cells: Seq<Seq<char>>, widths: Seq<nat>, k: int) -> Seq<char>
    decreases k,
{
    if k <= 0 {
        seq![]
    } else {
        padded_cells(cells, widths, k - 1) + cells[k - 1] + spaces(
            pad_of(widths[k - 1], cells[k - 1].len()) + 2,
        )
    }
}

/// One table line: every cell but the last padded to its column width plus
/// two spaces of separation, no trailing padding, and a newline.
pub open spec fn line(cells: Seq<Seq<char>>, widths: Seq<nat>) -> Seq<char> {
    if cells.len() == 0 {
        seq!['\n']
    } else {
        padded_cells(cells, widths, cells.len() - 1) + cells.last() + seq!['\n']
    }
}

/// The widest cell of column `i` over the rows (0 without any).
pub open spec fn body_width(rows: Seq<Seq<Seq<char>>>, i: int) -> nat
    decreases rows.len(),
{
    if rows.len() == 0 {
        0
    } else {
        max_nat(
            body_width(rows.drop_last(), i),
            if i < rows.last().len() {
                rows.last()[i].len()
            } else {
                0
            },
        )
    }
}

/// The number of columns: that of the header row, or without one that of
/// the first row.
pub open spec fn column_count(header: Seq<Seq<char>>, rows: Seq<Seq<Seq<char>>>) -> nat {
    if header.len() == 0 {
        if rows.len() == 0 {
            0
        } else {
            rows[0].len()
        }
    } else {
        header.len()
    }
}

/// The width of every column: its widest cell, header included.
pub open spec fn column_widths(header: Seq<Seq<char>>, rows: Seq<Seq<Seq<char>>>) -> Seq<nat> {
    Seq::new(
        column_count(header, rows),
        |i: int|
            max_nat(
                if i < header.len() {
                    header[i].len()
                } else {
                    0
                },
                body_width(rows, i),
            ),
    )
}

/// The lines of the rows, in order.
pub open spec fn lines(rows: Seq<Seq<Seq<char>>>, widths: Seq<nat>) -> Seq<char>
    decreases rows.len(),
{
    if rows.len() == 0 {
        seq![]
    } else {
        lines(rows.drop_last(), widths) + line(rows.last(), widths)
    }
}

/// A table: the header line (unless the header row is empty) and one line
/// per row, all with the same column widths.
pub open spec fn table_spec(header: Seq<Seq<char>>, rows: Seq<Seq<Seq<char>>>) -> Seq<char> {
    let w = column_widths(header, rows);
    (if header.len() > 0 {
        line(header, w)
    } else {
        seq![]
    }) + lines(rows, w)
}

/// The cells of a header, as values.
pub open spec fn header_view(headers: Option<&[&str]>) -> Seq<Seq<char>> {
    match headers {
        Some(h) => h@.map_values(|x: &str| x@),
        None => seq![],
    }
}

/// The cells of every row, as values.
pub open spec fn rows_view(rows: Seq<Vec<String>>) -> Seq<Seq<Seq<char>>> {
    rows.map_values(|r: Vec<String>| views(r@))
}

/// Every row fits the columns (a longer row has no width to pad to).
pub open spec fn rows_fit(header: Seq<Seq<char>>, rows: Seq<Seq<Seq<char>>>) -> bool {
    forall|r: int| 0 <= r < rows.len() ==> #[trigger] rows[r].len() <= column_count(header, rows)
}

/// Renders one line.
fn row_line(cells: &Vec<Vec<char>>, widths: &Vec<usize>) -> (r: Vec<char>)
    requires
        cells.len() <= widths.len(),
    ensures
        r@ == line(
            cells@.map_values(|c: Vec<char>| c@),
            widths@.map_values(|w: usize| w as nat),
        ),
{
    let ghost cv = cells@.map_values(|c: Vec<char>| c@);
    let ghost wv = widths@.map_values(|w: usize| w as nat);
    let mut out: Vec<char> = Vec::new();
    let n = cells.len();
    if n == 0 {
        out.push('\n');
        assert(out@ =~= seq!['\n']);
        return out;
    }
    for i in 0..n - 1
        invariant
            n == cells.len() <= widths.len(),
            n > 0,
            cv == cells@.map_values(|c: Vec<char>| c@),
            wv == widths@.map_values(|w: usize| w as nat),
            out@ == padded_cells(cv, wv, i as int),
    {
        assert(cv[i as int] == cells@[i as int]@);
        push_all(&mut out, &cells[i]);
        let w = widths[i];
        let c = cells[i].len();
        let pad = if w >= c {
            w - c
        } else {
            0
        };
        push_spaces(&mut out, pad);
        push_spaces(&mut out, 2);
        assert(spaces(pad as nat) + spaces(2) =~= spaces(
            pad_of(wv[i as int], cv[i as int].len()) + 2,
        ));
        assert(out@ =~= padded_cells(cv, wv, i + 1));
    }
    assert(cv[n - 1] == cells@[n - 1]@);
    push_all(&mut out, &cells[n - 1]);
    out.push('\n');
    assert(out@ =~= padded_cells(cv, wv, n - 1) + cv.last() + seq!['\n']);
    out
}

/// Render a table; columns are as wide as their widest cell. Used instead of
/// a table crate to keep output stable and compact.
///
/// The header row is omitted when `headers` is `None` (`--no-headers`); the
/// column widths are then computed from the body alone.
pub fn table(headers: Option<&[&str]>, rows: &[Vec<String>]) -> (r: String)
    requires
        rows_fit(header_view(headers), rows_view(rows@)),
    ensures
        r@ == table_spec(header_view(headers), rows_view(rows@)),
{
    let ghost hv = header_view(headers);
    let ghost rv = rows_view(rows@);
    let mut header_row: Vec<Vec<char>> = Vec::new();
    match headers {
        Some(h) => {
            for i in 0..h.len()
                invariant
                    hv == h@.map_values(|x: &str| x@),
                    header_row@.map_values(|c: Vec<char>| c@) == hv.take(i as int),
            {
                let ghost before = header_row@;
                header_row.push(chars_of(h[i]));
                assert(header_row@.map_values(|c: Vec<char>| c@) =~= before.map_values(
                    |c: Vec<char>| c@,
                ).push(hv[i as int]));
            }
            assert(hv.take(h.len() as int) =~= hv);
        },
        None => {},
    }
    let ghost hcv = header_row@.map_values(|c: Vec<char>| c@);
    assert(hcv =~= hv);
    let ncols = if header_row.len() == 0 {
        if rows.len() == 0 {
            0
        } else {
            rows[0].len()
        }
    } else {
        header_row.len()
    };
    assert(ncols == column_count(hv, rv)) by {
        if header_row.len() == 0 && rows.len() > 0 {
            assert(rv[0] == views(rows@[0]@));
        }
    }
    let ghost wspec = column_widths(hv, rv);
    let mut widths: Vec<usize> = Vec::new();
    for i in 0..ncols
        invariant
            ncols == column_count(hv, rv),
            hv == header_view(headers),
            rv == rows_view(rows@),
            hcv == hv,
            hcv == header_row@.map_values(|c: Vec<char>| c@),
            wspec == column_widths(hv, rv),
            widths@.map_values(|w: usize| w as nat) == wspec.take(i as int),
    {
        let mut w: usize = if i < header_row.len() {
            header_row[i].len()
        } else {
            0
        };
        assert(w == (if (i as int) < hv.len() {
            hv[i as int].len()
        } else {
            0
        })) by {
            if i < header_row.len() {
                assert(hcv[i as int] == header_row@[i as int]@);
            }
        }
        let ghost hw = w as nat;
        let mut b: usize = 0;
        for k in 0..rows.len()
            invariant
                rv == rows_view(rows@),
                b == body_width(rv.take(k as int), i as int),
        {
            assert(rv.take(k + 1).drop_last() =~= rv.take(k as int));
            assert(rv[k as int] == views(rows@[k as int]@));
            if i < rows[k].len() {
                let c = rows[k][i].as_str().unicode_len();
                assert(c == rv[k as int][i as int].len());
                if c > b {
                    b = c;
                }
            }
        }
        assert(rv.take(rows.len() as int) =~= rv);
        if b > w {
            w = b;
        }
        let ghost before = widths@;
        widths.push(w);
        assert(widths@.map_values(|w: usize| w as nat) =~= before.map_values(|w: usize| w as nat).push(
            wspec[i as int],
        ));
    }
    let ghost wv = widths@.map_values(|w: usize| w as nat);
    assert(wv =~= wspec);
    let mut out: Vec<char> = Vec::new();
    if header_row.len() > 0 {
        let l = row_line(&header_row, &widths);
        push_all(&mut out, &l);
    }
    let ghost head = out@;
    assert(head == (if hv.len() > 0 {
        line(hv, wspec)
    } else {
        Seq::<char>::empty()
    }));
    for k in 0..rows.len()
        invariant
            rv == rows_view(rows@),
            rows_fit(hv, rv),
            ncols == column_count(hv, rv),
            widths.len() == ncols,
            wv == widths@.map_values(|w: usize| w as nat),
            out@ == head + lines(rv.take(k as int), wv),
    {
        let mut cells: Vec<Vec<char>> = Vec::new();
        let ghost row = rv[k as int];
        assert(row == views(rows@[k as int]@));
        let this_row = &rows[k];
        for j in 0..this_row.len()
            invariant
                this_row == &rows@[k as int],
                row == views(rows@[k as int]@),
                cells@.map_values(|c: Vec<char>| c@) == row.take(j as int),
        {
            let ghost before = cells@;
            cells.push(chars_of(this_row[j].as_str()));
            assert(cells@.map_values(|c: Vec<char>| c@) =~= before.map_values(|c: Vec<char>| c@).push(
                row[j as int],
            ));
        }
        assert(row.take(rows@[k as int].len() as int) =~= row);
        assert(rv[k as int].len() <= column_count(hv, rv));
        let l = row_line(&cells, &widths);
        push_all(&mut out, &l);
        assert(rv.take(k + 1).drop_last() =~= rv.take(k as int));
        assert(out@ =~= head + lines(rv.take(k + 1), wv));
    }
    assert(rv.take(rows.len() as int) =~= rv);
    string_of(&out)
}

// ---------------------------------------------------------------------------
// Cells
// ---------------------------------------------------------------------------
/// The URIs of the indexes, as present values.
pub open spec fn uri_options(s: Seq<RepoIndexView>) -> Seq<Option<Seq<char>>> {
    s.map_values(|x: RepoIndexView| Some(x.uri))
}

/// The REPOSITORY cell: `-` without providers, otherwise the distinct URIs
/// in order, joined by a comma.
pub open spec fn repo_column_spec(repos: Seq<RepoIndexView>) -> Seq<char> {
    if repos.len() == 0 {
        "-"@
    } else {
        join(distinct_some(uri_options(repos)), ","@)
    }
}

/// Join repository URIs for the human REPOSITORY column. The full URI is
/// kept verbatim so the value can be passed to `--repo` unchanged; multiple
/// URIs are joined by a comma without a space to keep the cell a single
/// whitespace-free token.
pub fn repo_column(repos: &[RepoIndex]) -> (r: String)
    ensures
        r@ == repo_column_spec(index_views(repos@)),
{
    if repos.len() == 0 {
        return String::from_str("-");
    }
    let ghost all = uri_options(index_views(repos@));
    let mut uris: Vec<String> = Vec::new();
    for i in 0..repos.len()
        invariant
            all == uri_options(index_views(repos@)),
            views(uris@) == distinct_some(all.take(i as int)),
    {
        assert(all.take(i + 1).drop_last() =~= all.take(i as int));
        assert(all[i as int] == Some(repos@[i as int].uri@));
        if !crate::repository::contains_string(&uris, &repos[i].uri) {
            let ghost before = uris@;
            uris.push(repos[i].uri.clone());
            assert(views(uris@) =~= views(before).push(repos@[i as int].uri@));
        }
    }
    assert(all.take(repos.len() as int) =~= all);
    join_strings(&uris, ",")
}

/// `-` for no values, otherwise the values joined by a comma.
pub open spec fn join_or_dash_spec(values: Seq<Seq<char>>) -> Seq<char> {
    if values.len() == 0 {
        "-"@
    } else {
        join(values, ","@)
    }
}

fn join_or_dash(values: &Vec<String>) -> (r: String)
    ensures
        r@ == join_or_dash_spec(views(values@)),
{
    if values.len() == 0 {
        String::from_str("-")
    } else {
        join_strings(values, ",")
    }
}

/// The header row, or none (`--no-headers`).
pub open spec fn header_if_spec(header: Seq<Seq<char>>, show: bool) -> Seq<Seq<char>> {
    if show {
        header
    } else {
        seq![]
    }
}

/// The header argument for [`table`]: the header row, or `None` to omit it.
fn header_if<'a>(headers: &'a [&'a str], show: bool) -> (r: Option<&'a [&'a str]>)
    ensures
        header_view(r) == header_if_spec(headers@.map_values(|x: &str| x@), show),
{
    if show {
        Some(headers)
    } else {
        None
    }
}

// ---------------------------------------------------------------------------
// Package tables
// ---------------------------------------------------------------------------
/// The header of every package table.
pub open spec fn package_header() -> Seq<Seq<char>> {
    seq!["PACKAGE"@, "VERSION"@, "ARCH"@, "REPOSITORY"@]
}

/// The cells of an installed-version row.
pub open spec fn installed_cells(r: VersionRowView) -> Seq<Seq<char>> {
    seq![r.name, r.version, r.arch, repo_column_spec(r.repositories)]
}

/// The cells of a package-query row: the REPOSITORY cell carries the
/// `[installed]` marker of the installed version.
pub open spec fn version_cells(r: VersionRowView) -> Seq<Seq<char>> {
    seq![
        r.name,
        r.version,
        r.arch,
        repo_column_spec(r.repositories) + if r.installed {
            "  [installed]"@
        } else {
            Seq::<char>::empty()
        },
    ]
}

/// Every row has the four cells of the package header.
proof fn lemma_rows_fit_four(header: Seq<Seq<char>>, rows: Seq<Seq<Seq<char>>>)
    requires
        header.len() == 0 || header.len() == 4,
        forall|i: int| 0 <= i < rows.len() ==> #[trigger] rows[i].len() == 4,
    ensures
        rows_fit(header, rows),
{
}

fn package_header_cells() -> (r: [&'static str; 4])
    ensures
        r@.map_values(|x: &str| x@) == package_header(),
{
    let h = ["PACKAGE", "VERSION", "ARCH", "REPOSITORY"];
    assert(h@.map_values(|x: &str| x@) =~= package_header());
    h
}

/// Format installed-version rows (`--installed`, optionally `--repo`).
///
/// The REPOSITORY column is always present: without a filter it lists every
/// repository that provides the exact installed version (`-` when none
/// does), with a filter it repeats the selected repository. The header row
/// is omitted with `no_headers`.
pub fn installed(rows: &[VersionRow], no_headers: bool) -> (r: String)
    ensures
        r@ == table_spec(
            header_if_spec(package_header(), !no_headers),
            rows@.map_values(|x: VersionRow| installed_cells(x@)),
        ),
{
    let headers = package_header_cells();
    let ghost want = rows@.map_values(|x: VersionRow| installed_cells(x@));
    let mut body: Vec<Vec<String>> = Vec::new();
    for i in 0..rows.len()
        invariant
            want == rows@.map_values(|x: VersionRow| installed_cells(x@)),
            rows_view(body@) == want.take(i as int),
    {
        let r = &rows[i];
        let mut cells: Vec<String> = Vec::new();
        cells.push(r.name.clone());
        cells.push(r.version.clone());
        cells.push(r.arch.clone());
        cells.push(repo_column(&r.repositories));
        assert(views(cells@) =~= installed_cells(r@));
        let ghost before = body@;
        body.push(cells);
        assert(rows_view(body@) =~= rows_view(before).push(want[i as int]));
    }
    assert(want.take(rows.len() as int) =~= want);
    let h = header_if(&headers, !no_headers);
    proof {
        lemma_rows_fit_four(header_view(h), rows_view(body@));
    }
    table(h, &body)
}

/// Format version rows for one or more packages (`apt-lists <package>`).
/// The `[installed]` marker is a row-final token after the REPOSITORY cell;
/// the header row is omitted with `no_headers`.
pub fn package_versions(rows: &[VersionRow], no_headers: bool) -> (r: String)
    ensures
        r@ == table_spec(
            header_if_spec(package_header(), !no_headers),
            rows@.map_values(|x: VersionRow| version_cells(x@)),
        ),
{
    let headers = package_header_cells();
    let ghost want = rows@.map_values(|x: VersionRow| version_cells(x@));
    let mut body: Vec<Vec<String>> = Vec::new();
    for i in 0..rows.len()
        invariant
            want == rows@.map_values(|x: VersionRow| version_cells(x@)),
            rows_view(body@) == want.take(i as int),
    {
        let r = &rows[i];
        let mut repo = repo_column(&r.repositories);
        if r.installed {
            repo.append("  [installed]");
        } else {
            assert(repo@ =~= repo@ + Seq::<char>::empty());
        }
        let mut cells: Vec<String> = Vec::new();
        cells.push(r.name.clone());
        cells.push(r.version.clone());
        cells.push(r.arch.clone());
        cells.push(repo);
        assert(views(cells@) =~= version_cells(r@));
        let ghost before = body@;
        body.push(cells);
        assert(rows_view(body@) =~= rows_view(before).push(want[i as int]));
    }
    assert(want.take(rows.len() as int) =~= want);
    let h = header_if(&headers, !no_headers);
    proof {
        lemma_rows_fit_four(header_view(h), rows_view(body@));
    }
    table(h, &body)
}

// ---------------------------------------------------------------------------
// Repository table
// ---------------------------------------------------------------------------
/// The header of the repository table.
pub open spec fn repos_header() -> Seq<Seq<char>> {
    seq!["REPOSITORY"@, "SUITE"@, "COMPONENTS"@, "ARCHS"@, "PACKAGES"@]
}

/// The indexes of one suite.
pub open spec fn in_suite(s: Seq<RepoIndexView>, suite: Seq<char>) -> Seq<RepoIndexView> {
    s.filter(|x: RepoIndexView| x.archive == Some(suite))
}

/// The number of distinct package names that the counts record for the
/// repository with base URI `uri` and the suite.
pub open spec fn suite_count(
    entries: Seq<SuiteNameView>,
    uri: Seq<char>,
    suite: Option<Seq<char>>,
) -> nat {
    counted_names(entries, normalize_uri_spec(uri), suite).len()
}

/// The row of one suite of one repository: its components, its index
/// architectures and its number of package names.
pub open spec fn suite_row(r: RepositoryView, suite: Seq<char>, entries: Seq<SuiteNameView>) -> Seq<
    Seq<char>,
> {
    let idx = in_suite(r.indexes, suite);
    seq![
        r.uri,
        suite,
        join_or_dash_spec(distinct_some(fields(idx, IndexField::Component))),
        join_or_dash_spec(distinct_some(fields(idx, IndexField::Arch))),
        decimal(suite_count(entries, r.uri, Some(suite))),
    ]
}

/// The rows of one repository: one per suite, or a single `-` row for a
/// repository without suite metadata (e.g. a flat repository).
pub open spec fn repo_rows(r: RepositoryView, entries: Seq<SuiteNameView>) -> Seq<Seq<Seq<char>>> {
    let suites = distinct_some(fields(r.indexes, IndexField::Archive));
    if suites.len() == 0 {
        seq![
            seq![
                r.uri,
                "-"@,
                join_or_dash_spec(distinct_some(fields(r.indexes, IndexField::Component))),
                join_or_dash_spec(distinct_some(fields(r.indexes, IndexField::Arch))),
                decimal(suite_count(entries, r.uri, None)),
            ],
        ]
    } else {
        suites.map_values(|suite: Seq<char>| suite_row(r, suite, entries))
    }
}

/// The rows of every repository, in catalog order.
pub open spec fn catalog_rows(repos: Seq<RepositoryView>, entries: Seq<SuiteNameView>) -> Seq<
    Seq<Seq<char>>,
>
    decreases repos.len(),
{
    if repos.len() == 0 {
        seq![]
    } else {
        catalog_rows(repos.drop_last(), entries) + repo_rows(repos.last(), entries)
    }
}

/// The indexes of one suite.
pub fn filter_suite(indexes: &Vec<RepoIndex>, suite: &String) -> (r: Vec<RepoIndex>)
    ensures
        index_views(r@) == in_suite(index_views(indexes@), suite@),
{
    let ghost iv = index_views(indexes@);
    let ghost pred = |x: RepoIndexView| x.archive == Some(suite@);
    let mut out: Vec<RepoIndex> = Vec::new();
    for k in 0..indexes.len()
        invariant
            iv == index_views(indexes@),
            pred == (|x: RepoIndexView| x.archive == Some(suite@)),
            index_views(out@) == iv.take(k as int).filter(pred),
    {
        let ghost before = out@;
        let x = &indexes[k];
        proof {
            assert(iv[k as int] == x@);
            assert(iv.take(k + 1) =~= iv.take(k as int).push(x@));
            iv.take(k as int).lemma_filter_push(x@, pred);
        }
        let same = match &x.archive {
            Some(a) => crate::text::str_eq(a, suite),
            None => false,
        };
        if same {
            out.push(x.clone());
            assert(index_views(out@) =~= index_views(before).push(x@));
        }
    }
    assert(iv.take(indexes.len() as int) =~= iv);
    out
}

fn repos_header_cells() -> (r: [&'static str; 5])
    ensures
        r@.map_values(|x: &str| x@) == repos_header(),
{
    let h = ["REPOSITORY", "SUITE", "COMPONENTS", "ARCHS", "PACKAGES"];
    assert(h@.map_values(|x: &str| x@) =~= repos_header());
    h
}

/// Format the repository catalog (`--repos`): one row per repository and
/// suite, with the components and index architectures served for that suite
/// and the number of distinct package names the suite provides (an
/// `Architecture: all` package listed in several architecture indexes of one
/// suite counts once). SITE is omitted because it is the host part of the
/// REPOSITORY URI, and ORIGIN/LABEL are Release-file metadata not related to
/// the host; both stay available through `--json`. The header row is omitted
/// with `no_headers`.
pub fn repos(catalog: &RepoCatalog, counts: &PackageCounts, no_headers: bool) -> (r: String)
    ensures
        r@ == table_spec(
            header_if_spec(repos_header(), !no_headers),
            catalog_rows(catalog@, counts.entries()),
        ),
{
    let headers = repos_header_cells();
    let ghost es = counts.entries();
    let repositories = catalog.repositories();
    let ghost rv = catalog@;
    let mut body: Vec<Vec<String>> = Vec::new();
    for i in 0..repositories.len()
        invariant
            es == counts.entries(),
            rv == crate::repository::repo_views(repositories@),
            rows_view(body@) == catalog_rows(rv.take(i as int), es),
            forall|q: int| 0 <= q < body@.len() ==> #[trigger] body@[q]@.len() == 5,
    {
        let repo = &repositories[i];
        let ghost base = rows_view(body@);
        assert(rv[i as int] == repo@);
        assert(rv.take(i + 1).drop_last() =~= rv.take(i as int));
        let suites = repo.archives();
        if suites.len() == 0 {
            let mut cells: Vec<String> = Vec::new();
            cells.push(repo.uri.clone());
            cells.push(String::from_str("-"));
            cells.push(join_or_dash(&distinct(&repo.indexes, IndexField::Component)));
            cells.push(join_or_dash(&distinct(&repo.indexes, IndexField::Arch)));
            cells.push(decimal_string(suite_package_count(counts, repo.uri.as_str(), None)));
            assert(views(cells@) =~= repo_rows(repo@, es)[0]);
            body.push(cells);
            assert(rows_view(body@) =~= base + repo_rows(repo@, es));
        } else {
            let ghost sv = views(suites@);
            for j in 0..suites.len()
                invariant
                    sv == views(suites@),
                    sv == distinct_some(fields(repo@.indexes, IndexField::Archive)),
                    sv.len() > 0,
                    es == counts.entries(),
                    rows_view(body@) == base + sv.take(j as int).map_values(
                        |suite: Seq<char>| suite_row(repo@, suite, es),
                    ),
                    forall|q: int| 0 <= q < body@.len() ==> #[trigger] body@[q]@.len() == 5,
            {
                let suite = &suites[j];
                assert(sv[j as int] == suite@);
                let idx = filter_suite(&repo.indexes, suite);
                let mut cells: Vec<String> = Vec::new();
                cells.push(repo.uri.clone());
                cells.push(suite.clone());
                cells.push(join_or_dash(&distinct(&idx, IndexField::Component)));
                cells.push(join_or_dash(&distinct(&idx, IndexField::Arch)));
                cells.push(
                    decimal_string(suite_package_count(counts, repo.uri.as_str(), Some(suite.as_str()))),
                );
                assert(views(cells@) =~= suite_row(repo@, suite@, es));
                let ghost before = body@;
                body.push(cells);
                assert(rows_view(body@) =~= rows_view(before).push(suite_row(repo@, suite@, es)));
                assert(sv.take(j + 1).map_values(|suite: Seq<char>| suite_row(repo@, suite, es))
                    =~= sv.take(j as int).map_values(
                    |suite: Seq<char>| suite_row(repo@, suite, es),
                ).push(suite_row(repo@, suite@, es)));
            }
            assert(sv.take(suites.len() as int) =~= sv);
        }
    }
    assert(rv.take(repositories.len() as int) =~= rv);
    let h = header_if(&headers, !no_headers);
    proof {
        let hv = header_view(h);
        let bv = rows_view(body@);
        assert forall|q: int| 0 <= q < bv.len() implies #[trigger] bv[q].len() <= column_count(
            hv,
            bv,
        ) by {
            assert(bv[q] == views(body@[q]@));
            assert(bv[q].len() == 5);
            if hv.len() == 0 {
                assert(bv[0] == views(body@[0]@));
                assert(bv[0].len() == 5);
            }
        }
    }
    table(h, &body)
}

} // verus!
