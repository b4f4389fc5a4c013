//! The SQL of a library listing: filters become `WHERE` clauses with their
//! parameters, and the page is bounded and ordered.
use vstd::prelude::*;
use crate::tasks::{
    escape_like_pattern, like_escaped, normalized, opt_view, sort_clause, trimmed_query_value,
    WorkListFilters, WorkListSort,
};
use crate::text::{chars_of, join, join_str, push_str, string_from_chars, views};

verus! {

/// A parameter bound to a listing query.
#[derive(Debug, Clone, PartialEq, Eq)]
pub enum QueryParam {
    Text(String),
    Integer(i64),
}

pub enum QueryParamView {
    Text(Seq<char>),
    Integer(int),
}

impl QueryParam {
    pub open spec fn view(&self) -> QueryParamView {
        match self {
            QueryParam::Text(s) => QueryParamView::Text(s@),
            QueryParam::Integer(n) => QueryParamView::Integer(*n as int),
        }
    }
}

pub open spec fn params_view(v: Seq<QueryParam>) -> Seq<QueryParamView> {
    v.map_values(|p: QueryParam| p.view())
}

/// The counting query and the page query of a listing with their
/// parameters.
#[derive(Debug, Clone)]
pub struct WorkQuery {
    pub count_sql: String,
    pub count_params: Vec<QueryParam>,
    pub page_sql: String,
    pub page_params: Vec<QueryParam>,
}

/// The clause that searches titles, authors and keys.
pub open spec fn search_clause() -> Seq<char> {
    "(title LIKE ? ESCAPE '\\' OR author LIKE ? ESCAPE '\\' OR work_key LIKE ? ESCAPE '\\')"@
}

/// A clause and its parameter for a filter that is set.
pub open spec fn equal_filter(value: Option<Seq<char>>, clause: Seq<char>) -> (Seq<Seq<char>>, Seq<QueryParamView>) {
    match value {
        Some(v) => (seq![clause], seq![QueryParamView::Text(v)]),
        None => (Seq::empty(), Seq::empty()),
    }
}

/// The search clause and its three patterns, when a search is set.
pub open spec fn search_filter(value: Option<Seq<char>>) -> (Seq<Seq<char>>, Seq<QueryParamView>) {
    match value {
        Some(v) => {
            let p = QueryParamView::Text("%"@ + like_escaped(v) + "%"@);
            (seq![search_clause()], seq![p, p, p])
        },
        None => (Seq::empty(), Seq::empty()),
    }
}

/// The clauses and parameters of the filters that are set, after trimming,
/// in the order site, search, author id, author, type, serialization.
pub open spec fn filter_parts(f: WorkListFilters) -> (Seq<Seq<char>>, Seq<QueryParamView>) {
    let a = equal_filter(normalized(opt_view(f.site)), "site = ?"@);
    let b = search_filter(normalized(opt_view(f.search)));
    let c = equal_filter(normalized(opt_view(f.author_id)), "author_id = ?"@);
    let d = equal_filter(normalized(opt_view(f.author)), "author = ?"@);
    let e = equal_filter(normalized(opt_view(f.work_type)), "type = ?"@);
    let g = equal_filter(normalized(opt_view(f.serialization)), "serialization = ?"@);
    (a.0 + b.0 + c.0 + d.0 + e.0 + g.0, a.1 + b.1 + c.1 + d.1 + e.1 + g.1)
}

/// ` WHERE` and the clauses joined by `AND`, or nothing without clauses.
pub open spec fn where_sql(clauses: Seq<Seq<char>>) -> Seq<char> {
    if clauses.len() == 0 {
        Seq::empty()
    } else {
        " WHERE "@ + join(clauses, " AND "@)
    }
}

/// The page size between 1 and `i64::MAX`.
pub open spec fn page_limit(limit: nat) -> nat {
    if limit < 1 {
        1
    } else if limit > i64::MAX as nat {
        i64::MAX as nat
    } else {
        limit
    }
}

/// The offset at most `i64::MAX`.
pub open spec fn page_offset(offset: nat) -> nat {
    if offset > i64::MAX as nat {
        i64::MAX as nat
    } else {
        offset
    }
}

/// The queries of a listing page.
pub open spec fn listing_query(f: WorkListFilters, limit: nat, offset: nat, sort: WorkListSort) -> (Seq<char>, Seq<QueryParamView>, Seq<char>, Seq<QueryParamView>) {
    let (clauses, params) = filter_parts(f);
    let w = where_sql(clauses);
    (
        "SELECT COUNT(*) FROM works"@ + w,
        params,
        "SELECT site, work_key, title, author, author_id, author_url, type, serialization, caption, create_date, update_date\n                   FROM works"@
            + w + "\n                   ORDER BY "@ + sort_clause(sort) + "\n                   LIMIT ? OFFSET ?"@,
        params.push(QueryParamView::Integer(page_limit(limit) as int)).push(
            QueryParamView::Integer(page_offset(offset) as int),
        ),
    )
}

fn add_equal_filter(value: &Option<String>, clause: &str, clauses: &mut Vec<Vec<char>>, params: &mut Vec<QueryParam>)
    ensures
        views(final(clauses)@) == views(old(clauses)@) + equal_filter(normalized(opt_view(*value)), clause@).0,
        params_view(final(params)@) == params_view(old(params)@) + equal_filter(normalized(opt_view(*value)), clause@).1,
{
    let v: Option<&str> = match value {
        Some(s) => Some(s.as_str()),
        None => None,
    };
    let ghost c0 = views(clauses@);
    let ghost p0 = params_view(params@);
    match trimmed_query_value(v) {
        Some(t) => {
            clauses.push(chars_of(clause));
            let ghost tv = t@;
            params.push(QueryParam::Text(t));
            assert(views(clauses@) =~= c0 + seq![clause@]);
            assert(params_view(params@) =~= p0 + seq![QueryParamView::Text(tv)]);
        },
        None => {
            assert(views(clauses@) =~= c0 + Seq::<Seq<char>>::empty());
            assert(params_view(params@) =~= p0 + Seq::<QueryParamView>::empty());
        },
    }
}

fn add_search_filter(value: &Option<String>, clauses: &mut Vec<Vec<char>>, params: &mut Vec<QueryParam>)
    ensures
        views(final(clauses)@) == views(old(clauses)@) + search_filter(normalized(opt_view(*value))).0,
        params_view(final(params)@) == params_view(old(params)@) + search_filter(normalized(opt_view(*value))).1,
{
    let v: Option<&str> = match value {
        Some(s) => Some(s.as_str()),
        None => None,
    };
    let ghost c0 = views(clauses@);
    let ghost p0 = params_view(params@);
    match trimmed_query_value(v) {
        Some(t) => {
            clauses.push(chars_of("(title LIKE ? ESCAPE '\\' OR author LIKE ? ESCAPE '\\' OR work_key LIKE ? ESCAPE '\\')"));
            let mut p = chars_of("%");
            let e = escape_like_pattern(t.as_str());
            push_str(&mut p, e.as_str());
            push_str(&mut p, "%");
            let pattern = string_from_chars(p.as_slice());
            let ghost pv = QueryParamView::Text(pattern@);
            params.push(QueryParam::Text(pattern.clone()));
            params.push(QueryParam::Text(pattern.clone()));
            params.push(QueryParam::Text(pattern));
            assert(views(clauses@) =~= c0 + seq![search_clause()]);
            assert(params_view(params@) =~= p0 + seq![pv, pv, pv]);
        },
        None => {
            assert(views(clauses@) =~= c0 + Seq::<Seq<char>>::empty());
            assert(params_view(params@) =~= p0 + Seq::<QueryParamView>::empty());
        },
    }
}

/// The counting and page queries of a library listing, with their
/// parameters bound in order.
pub fn work_summary_query(filters: &WorkListFilters, limit: usize, offset: usize, sort: WorkListSort) -> (r: WorkQuery)
    ensures
        (r.count_sql@, params_view(r.count_params@), r.page_sql@, params_view(r.page_params@)) == listing_query(
            *filters,
            limit as nat,
            offset as nat,
            sort,
        ),
{
    let mut clauses: Vec<Vec<char>> = Vec::new();
    let mut params: Vec<QueryParam> = Vec::new();
    assert(views(clauses@) =~= Seq::<Seq<char>>::empty());
    assert(params_view(params@) =~= Seq::<QueryParamView>::empty());
    add_equal_filter(&filters.site, "site = ?", &mut clauses, &mut params);
    add_search_filter(&filters.search, &mut clauses, &mut params);
    add_equal_filter(&filters.author_id, "author_id = ?", &mut clauses, &mut params);
    add_equal_filter(&filters.author, "author = ?", &mut clauses, &mut params);
    add_equal_filter(&filters.work_type, "type = ?", &mut clauses, &mut params);
    add_equal_filter(&filters.serialization, "serialization = ?", &mut clauses, &mut params);
    let ghost parts = filter_parts(*filters);
    assert(views(clauses@) =~= parts.0);
    assert(params_view(params@) =~= parts.1);
    let mut w: Vec<char> = Vec::new();
    if clauses.len() > 0 {
        push_str(&mut w, " WHERE ");
        let j = join_str(&clauses, " AND ");
        crate::text::push_all(&mut w, j.as_slice());
    }
    assert(w@ =~= where_sql(parts.0));
    let mut count = chars_of("SELECT COUNT(*) FROM works");
    crate::text::push_all(&mut count, w.as_slice());
    let mut page = chars_of(
        "SELECT site, work_key, title, author, author_id, author_url, type, serialization, caption, create_date, update_date\n                   FROM works",
    );
    crate::text::push_all(&mut page, w.as_slice());
    push_str(&mut page, "\n                   ORDER BY ");
    push_str(&mut page, sort.order_by());
    push_str(&mut page, "\n                   LIMIT ? OFFSET ?");
    let max: usize = if (i64::MAX as u64) < (usize::MAX as u64) {
        i64::MAX as usize
    } else {
        usize::MAX
    };
    let lim: usize = if limit < 1 {
        1
    } else if limit > max {
        max
    } else {
        limit
    };
    let off: usize = if offset > max {
        max
    } else {
        offset
    };
    let mut page_params: Vec<QueryParam> = Vec::new();
    let mut i: usize = 0;
    while i < params.len()
        invariant
            i <= params.len(),
            params_view(page_params@) == params_view(params@).take(i as int),
        decreases params.len() - i,
    {
        let p = match &params[i] {
            QueryParam::Text(s) => QueryParam::Text(s.clone()),
            QueryParam::Integer(n) => QueryParam::Integer(*n),
        };
        let ghost before = params_view(page_params@);
        page_params.push(p);
        assert(params_view(page_params@) =~= before.push(params@[i as int].view()));
        assert(params_view(params@).take(i + 1) =~= params_view(params@).take(i as int).push(params@[i as int].view()));
        i = i + 1;
    }
    assert(params_view(params@).take(i as int) =~= params_view(params@));
    let ghost pp = params_view(page_params@);
    page_params.push(QueryParam::Integer(lim as i64));
    page_params.push(QueryParam::Integer(off as i64));
    assert(params_view(page_params@) =~= pp.push(QueryParamView::Integer(page_limit(limit as nat) as int)).push(
        QueryParamView::Integer(page_offset(offset as nat) as int),
    ));
    WorkQuery {
        count_sql: string_from_chars(count.as_slice()),
        count_params: params,
        page_sql: string_from_chars(page.as_slice()),
        page_params,
    }
}

} // verus!
