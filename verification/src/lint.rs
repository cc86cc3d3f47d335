//! Link linting: classify HTTP statuses of recorded preview URLs and
//! group the offenders. The HTTP requests themselves happen outside;
//! every classification and grouping decision is verified.

use vstd::prelude::*;

verus! {

/// The condition of a checked URL.
#[derive(Copy, Clone, PartialEq, Eq, Structural, Debug, Hash)]
pub enum UrlCondition {
    Normal,
    NotFound,
    Redirected,
    ServerError,
}

/// The condition an HTTP status maps to: 404 is not-found, 3xx is a
/// redirect, 5xx is a server error, everything else is normal.
pub open spec fn classify_spec(status: u16) -> UrlCondition {
    if status == 404 {
        UrlCondition::NotFound
    } else if 300 <= status < 400 {
        UrlCondition::Redirected
    } else if 500 <= status < 600 {
        UrlCondition::ServerError
    } else {
        UrlCondition::Normal
    }
}

/// Classify one HTTP status code.
pub fn classify_status(status: u16) -> (r: UrlCondition)
    ensures
        r == classify_spec(status),
{
    if status == 404 {
        UrlCondition::NotFound
    } else if 300 <= status && status < 400 {
        UrlCondition::Redirected
    } else if 500 <= status && status < 600 {
        UrlCondition::ServerError
    } else {
        UrlCondition::Normal
    }
}

/// The URLs among the results in the given condition, in order.
pub open spec fn urls_with(results: Seq<(Seq<char>, UrlCondition)>, c: UrlCondition) -> Seq<
    Seq<char>,
> {
    results.filter(|e: (Seq<char>, UrlCondition)| e.1 == c).map_values(
        |e: (Seq<char>, UrlCondition)| e.0,
    )
}

/// The grouped lint findings.
pub struct LintReport {
    pub not_found: Vec<String>,
    pub redirected: Vec<String>,
    pub server_error: Vec<String>,
}

proof fn lemma_urls_with_push(
    s: Seq<(Seq<char>, UrlCondition)>,
    e: (Seq<char>, UrlCondition),
    c: UrlCondition,
)
    ensures
        urls_with(s.push(e), c) == (if e.1 == c {
            urls_with(s, c).push(e.0)
        } else {
            urls_with(s, c)
        }),
{
    reveal(Seq::filter);
    assert(s.push(e).drop_last() =~= s);
    if e.1 == c {
        assert(urls_with(s.push(e), c) =~= urls_with(s, c).push(e.0));
    } else {
        assert(urls_with(s.push(e), c) =~= urls_with(s, c));
    }
}

/// Group checked URLs by condition, keeping document order; normal
/// URLs are dropped.
pub fn group_conditions(results: &Vec<(String, UrlCondition)>) -> (r: LintReport)
    ensures
        ({
            let view = results@.map_values(|e: (String, UrlCondition)| (e.0@, e.1));
            &&& r.not_found@.map_values(|u: String| u@) == urls_with(view, UrlCondition::NotFound)
            &&& r.redirected@.map_values(|u: String| u@) == urls_with(
                view,
                UrlCondition::Redirected,
            )
            &&& r.server_error@.map_values(|u: String| u@) == urls_with(
                view,
                UrlCondition::ServerError,
            )
        }),
{
    let ghost view = results@.map_values(|e: (String, UrlCondition)| (e.0@, e.1));
    let mut not_found: Vec<String> = Vec::new();
    let mut redirected: Vec<String> = Vec::new();
    let mut server_error: Vec<String> = Vec::new();
    let n = results.len();
    let mut i: usize = 0;
    proof {
        assert(view.take(0) =~= Seq::<(Seq<char>, UrlCondition)>::empty());
        assert(not_found@.map_values(|u: String| u@) =~= urls_with(
            view.take(0),
            UrlCondition::NotFound,
        ));
        assert(redirected@.map_values(|u: String| u@) =~= urls_with(
            view.take(0),
            UrlCondition::Redirected,
        ));
        assert(server_error@.map_values(|u: String| u@) =~= urls_with(
            view.take(0),
            UrlCondition::ServerError,
        ));
    }
    while i < n
        invariant
            i <= n,
            n == results@.len(),
            view == results@.map_values(|e: (String, UrlCondition)| (e.0@, e.1)),
            view.len() == n,
            not_found@.map_values(|u: String| u@) == urls_with(
                view.take(i as int),
                UrlCondition::NotFound,
            ),
            redirected@.map_values(|u: String| u@) == urls_with(
                view.take(i as int),
                UrlCondition::Redirected,
            ),
            server_error@.map_values(|u: String| u@) == urls_with(
                view.take(i as int),
                UrlCondition::ServerError,
            ),
        decreases n - i,
    {
        let e = &results[i];
        proof {
            assert(view.take(i + 1) =~= view.take(i as int).push(view[i as int]));
            assert(view[i as int] == (e.0@, e.1));
            lemma_urls_with_push(view.take(i as int), view[i as int], UrlCondition::NotFound);
            lemma_urls_with_push(view.take(i as int), view[i as int], UrlCondition::Redirected);
            lemma_urls_with_push(view.take(i as int), view[i as int], UrlCondition::ServerError);
        }
        match e.1 {
            UrlCondition::NotFound => {
                not_found.push(e.0.clone());
                proof {
                    assert(not_found@.map_values(|u: String| u@) =~= urls_with(
                        view.take(i as int),
                        UrlCondition::NotFound,
                    ).push(e.0@));
                }
            },
            UrlCondition::Redirected => {
                redirected.push(e.0.clone());
                proof {
                    assert(redirected@.map_values(|u: String| u@) =~= urls_with(
                        view.take(i as int),
                        UrlCondition::Redirected,
                    ).push(e.0@));
                }
            },
            UrlCondition::ServerError => {
                server_error.push(e.0.clone());
                proof {
                    assert(server_error@.map_values(|u: String| u@) =~= urls_with(
                        view.take(i as int),
                        UrlCondition::ServerError,
                    ).push(e.0@));
                }
            },
            UrlCondition::Normal => {},
        }
        i = i + 1;
    }
    proof {
        assert(view.take(n as int) =~= view);
    }
    LintReport { not_found, redirected, server_error }
}

/// A lint run succeeds exactly when no URL is in a bad condition.
pub fn lint_success(report: &LintReport) -> (r: bool)
    ensures
        r == (report.not_found@.len() == 0 && report.redirected@.len() == 0
            && report.server_error@.len() == 0),
{
    report.not_found.len() == 0 && report.redirected.len() == 0 && report.server_error.len() == 0
}

} // verus!
