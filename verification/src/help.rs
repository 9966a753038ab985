//! The help texts, which name the version and the limits.

use vstd::prelude::*;
use crate::hook::SESSION_LIST_LIMIT_DEFAULT;
use crate::status::SESSION_LIST_LIMIT_MAX;
use crate::text;

verus! {

/// A help text with the version and the two limits of the list of sessions filled in.
pub open spec fn filled(
    template: Seq<char>,
    version: Seq<char>,
    default_limit: Seq<char>,
    max_limit: Seq<char>,
) -> Seq<char> {
    text::replaced(
        text::replaced(
            text::replaced(template, "{VERSION}"@, version),
            "{SESSION_LIST_LIMIT_DEFAULT}"@,
            default_limit,
        ),
        "{SESSION_LIST_LIMIT_MAX}"@,
        max_limit,
    )
}

fn fill(template: &str, version: &str, default_limit: &str, max_limit: &str) -> (r: String)
    ensures
        r@ == filled(template@, version@, default_limit@, max_limit@),
{
    proof {
        reveal_strlit("{VERSION}");
        reveal_strlit("{SESSION_LIST_LIMIT_DEFAULT}");
        reveal_strlit("{SESSION_LIST_LIMIT_MAX}");
    }
    let s = text::replace(template, "{VERSION}", version);
    let s = text::replace(s.as_str(), "{SESSION_LIST_LIMIT_DEFAULT}", default_limit);
    text::replace(s.as_str(), "{SESSION_LIST_LIMIT_MAX}", max_limit)
}

/// The help text of the program.
pub fn program_help(template: &str, version: &str) -> (r: String)
    ensures
        r@ == text::replaced(template@, "{VERSION}"@, version@),
{
    proof {
        reveal_strlit("{VERSION}");
    }
    text::replace(template, "{VERSION}", version)
}

/// The help text of the `hook` command.
pub fn hook_help(template: &str, version: &str) -> (r: String)
    ensures
        r@ == filled(
            template@,
            version@,
            text::decimal(SESSION_LIST_LIMIT_DEFAULT as nat),
            "0 = 全部"@,
        ),
{
    let default_limit = text::render(SESSION_LIST_LIMIT_DEFAULT as u64);
    fill(template, version, default_limit.as_str(), "0 = 全部")
}

/// The help text of `jj-status`.
pub fn status_help(template: &str, version: &str) -> (r: String)
    ensures
        r@ == filled(
            template@,
            version@,
            text::decimal(SESSION_LIST_LIMIT_DEFAULT as nat),
            text::decimal(SESSION_LIST_LIMIT_MAX as nat),
        ),
{
    let default_limit = text::render(SESSION_LIST_LIMIT_DEFAULT as u64);
    let max_limit = text::render(SESSION_LIST_LIMIT_MAX as u64);
    fill(template, version, default_limit.as_str(), max_limit.as_str())
}

/// Every placeholder is filled, the version first and then the limits, which are 50 by default and
/// at most 200.
pub proof fn placeholders_are_filled(
    template: Seq<char>,
    version: Seq<char>,
    default_limit: Seq<char>,
    max_limit: Seq<char>,
)
    ensures
        ({
            let versioned = text::replaced(template, "{VERSION}"@, version);
            let limited = text::replaced(
                versioned,
                "{SESSION_LIST_LIMIT_DEFAULT}"@,
                default_limit,
            );
            filled(template, version, default_limit, max_limit) == text::replaced(
                limited,
                "{SESSION_LIST_LIMIT_MAX}"@,
                max_limit,
            )
        }),
        SESSION_LIST_LIMIT_DEFAULT == 50,
        SESSION_LIST_LIMIT_MAX == 200,
{
}

} // verus!
