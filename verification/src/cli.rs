use vstd::prelude::*;

use crate::error::AppError;
use crate::search::SearchOptions;
use crate::text::{
    all_whitespace, all_ws, chars_of, eq_str, join, join_exec, lemma_trim_empty, parse_usize,
    parse_usize_exec, push_all, push_str, starts_with, string_from, trim, unsigned_digits,
    is_digit,
};

verus! {

/// A parsed command line.
#[derive(Debug, Clone, PartialEq, Eq)]
pub enum Command {
    Search(SearchOptions),
    Fetch(FetchOptions),
    Help,
    Version,
}

/// What `fetch` asks for: the URL, and whether to print only the Markdown body.
#[derive(Debug, Clone, PartialEq, Eq)]
pub struct FetchOptions {
    pub url: String,
    pub md: bool,
}

/// A command line's meaning, with its strings as character sequences.
pub enum CommandView {
    Search { query: Seq<char>, count: usize, search_type: Seq<char> },
    Fetch { url: Seq<char>, md: bool },
    Help,
    Version,
}

impl View for Command {
    type V = CommandView;

    open spec fn view(&self) -> CommandView {
        match self {
            Command::Search(o) => CommandView::Search {
                query: o.query@,
                count: o.count,
                search_type: o.search_type@,
            },
            Command::Fetch(o) => CommandView::Fetch { url: o.url@, md: o.md },
            Command::Help => CommandView::Help,
            Command::Version => CommandView::Version,
        }
    }
}

/// The version that `--version` reports.
pub const VERSION: &'static str = "0.1.0";

pub open spec fn usage_text() -> Seq<char> {
    "Usage:\n  webtools search [--count <n>] [--type <auto|neural|keyword>] <query...>\n  webtools fetch [--json|--md] <url>\n\nDefaults:\n  Output is JSON unless --md is passed to fetch.\n\nEnvironment:\n  EXA_API_KEY is required for search."@
}

/// The usage text.
pub fn usage() -> (u: &'static str)
    ensures
        u@ == usage_text(),
{
    "Usage:\n  webtools search [--count <n>] [--type <auto|neural|keyword>] <query...>\n  webtools fetch [--json|--md] <url>\n\nDefaults:\n  Output is JSON unless --md is passed to fetch.\n\nEnvironment:\n  EXA_API_KEY is required for search."
}

/// The meaning of a command line (without the program name): a command, or the usage message.
pub open spec fn parse_spec(args: Seq<Seq<char>>) -> Result<CommandView, Seq<char>> {
    if args.len() == 0 {
        Ok(CommandView::Help)
    } else if args[0] == "-h"@ || args[0] == "--help"@ || args[0] == "help"@ {
        Ok(CommandView::Help)
    } else if args[0] == "--version"@ {
        Ok(CommandView::Version)
    } else if args[0] == "search"@ {
        parse_search_spec(args.drop_first())
    } else if args[0] == "fetch"@ {
        parse_fetch_spec(args.drop_first())
    } else {
        Err("unknown command `"@ + args[0] + "`\n\n"@ + usage_text())
    }
}

/// The state of a search command line after `args[..i]`: count, type and query words;
/// or the usage message of the first bad argument.
pub open spec fn search_scan(
    args: Seq<Seq<char>>,
    i: int,
    count: usize,
    search_type: Seq<char>,
    words: Seq<Seq<char>>,
) -> Result<(usize, Seq<char>, Seq<Seq<char>>), Seq<char>>
    decreases args.len() - i,
{
    if i < 0 || i >= args.len() {
        Ok((count, search_type, words))
    } else {
        let a = args[i];
        if a == "--json"@ {
            search_scan(args, i + 1, count, search_type, words)
        } else if a == "--count"@ || a == "-n"@ {
            if i + 1 >= args.len() {
                Err("missing value for --count"@)
            } else {
                match parse_usize(args[i + 1]) {
                    None => Err("--count must be an integer between 1 and 20"@),
                    Some(n) => if 1 <= n <= 20 {
                        search_scan(args, i + 2, n, search_type, words)
                    } else {
                        Err("--count must be between 1 and 20"@)
                    },
                }
            }
        } else if a == "--type"@ {
            if i + 1 >= args.len() {
                Err("missing value for --type"@)
            } else {
                let r = args[i + 1];
                if r == "auto"@ || r == "neural"@ || r == "keyword"@ {
                    search_scan(args, i + 2, count, r, words)
                } else {
                    Err("--type must be one of auto, neural, keyword"@)
                }
            }
        } else if starts_with(a, "-"@) {
            Err("unknown search flag `"@ + a + "`"@)
        } else {
            search_scan(args, i + 1, count, search_type, words.push(a))
        }
    }
}

/// The search types that a search command line may name.
pub open spec fn known_search_type(t: Seq<char>) -> bool {
    t == "auto"@ || t == "neural"@ || t == "keyword"@
}

proof fn lemma_search_scan_valid(
    args: Seq<Seq<char>>,
    i: int,
    count: usize,
    search_type: Seq<char>,
    words: Seq<Seq<char>>,
)
    requires
        1 <= count <= 20,
        known_search_type(search_type),
    ensures
        search_scan(args, i, count, search_type, words) matches Ok((c, t, _)) ==> 1 <= c <= 20
            && known_search_type(t),
    decreases args.len() - i,
{
    if 0 <= i < args.len() {
        let a = args[i];
        if a == "--json"@ {
            lemma_search_scan_valid(args, i + 1, count, search_type, words);
        } else if a == "--count"@ || a == "-n"@ {
            if i + 1 < args.len() {
                if let Some(n) = parse_usize(args[i + 1]) {
                    if 1 <= n <= 20 {
                        lemma_search_scan_valid(args, i + 2, n, search_type, words);
                    }
                }
            }
        } else if a == "--type"@ {
            if i + 1 < args.len() {
                let r = args[i + 1];
                if known_search_type(r) {
                    lemma_search_scan_valid(args, i + 2, count, r, words);
                }
            }
        } else if !starts_with(a, "-"@) {
            lemma_search_scan_valid(args, i + 1, count, search_type, words.push(a));
        }
    }
}

/// Every search that a command line yields asks for 1 to 20 results, names one of the
/// three search types, and has a query that is not blank; every fetch has its URL.
pub proof fn lemma_parsed_commands_valid(args: Seq<Seq<char>>)
    ensures
        parse_spec(args) matches Ok(CommandView::Search { query, count, search_type }) ==> 1
            <= count <= 20 && known_search_type(search_type) && !all_ws(query),
        parse_spec(args) matches Ok(CommandView::Fetch { url, md }) ==> !starts_with(url, "-"@),
{
    reveal_strlit("auto");
    if args.len() > 0 && args[0] == "search"@ {
        lemma_search_scan_valid(args.drop_first(), 0, 5, "auto"@, seq![]);
        if let Ok((c, t, w)) = search_scan(args.drop_first(), 0, 5, "auto"@, seq![]) {
            lemma_trim_empty(join(w, " "@));
        }
    }
    if args.len() > 0 && args[0] == "fetch"@ {
        lemma_fetch_scan_url(args.drop_first(), 0, false, false, None);
    }
}

proof fn lemma_fetch_scan_url(
    args: Seq<Seq<char>>,
    i: int,
    md: bool,
    json: bool,
    url: Option<Seq<char>>,
)
    requires
        url matches Some(u) ==> !starts_with(u, "-"@),
    ensures
        fetch_scan(args, i, md, json, url) matches Ok((_, _, Some(u))) ==> !starts_with(u, "-"@),
    decreases args.len() - i,
{
    if 0 <= i < args.len() {
        let a = args[i];
        if a == "--md"@ {
            lemma_fetch_scan_url(args, i + 1, true, json, url);
        } else if a == "--json"@ {
            lemma_fetch_scan_url(args, i + 1, md, true, url);
        } else if !starts_with(a, "-"@) && url is None {
            lemma_fetch_scan_url(args, i + 1, md, json, Some(a));
        }
    }
}

proof fn lemma_search_scan_type(
    args: Seq<Seq<char>>,
    i: int,
    count: usize,
    t: Seq<char>,
    words: Seq<Seq<char>>,
)
    requires
        0 <= i <= args.len(),
    ensures
        search_scan(args, i, count, t, words) matches Ok((_, t2, _)) ==> {
            &&& (forall|k: int| i <= k < args.len() ==> #[trigger] args[k] != "--type"@) ==> t2 == t
            &&& forall|k: int|
                i <= k < args.len() && #[trigger] args[k] == "--type"@ && (forall|j: int|
                    k < j < args.len() ==> args[j] != "--type"@) ==> k + 1 < args.len() && t2
                    == args[k + 1]
        },
    decreases args.len() - i,
{
    reveal_strlit("--type");
    reveal_strlit("--json");
    reveal_strlit("--count");
    reveal_strlit("-n");
    reveal_strlit("auto");
    reveal_strlit("neural");
    reveal_strlit("keyword");
    if i < args.len() {
        let a = args[i];
        let r = search_scan(args, i, count, t, words);
        if r is Ok {
            let t2 = r->Ok_0.1;
            // the next position scanned, the search type carried there, and the fact that no
            // `--type` flag stands in between other than, perhaps, at `i`
            if a == "--json"@ {
                lemma_search_scan_type(args, i + 1, count, t, words);
                assert(a != "--type"@) by {
                    assert(a[2] != "--type"@[2]);
                }
            } else if a == "--count"@ || a == "-n"@ {
                let n = parse_usize(args[i + 1])->0;
                lemma_search_scan_type(args, i + 2, n, t, words);
                assert(a != "--type"@) by {
                    assert(a[1] != "--type"@[1] || a.len() != 6);
                }
                assert(args[i + 1] != "--type"@) by {
                    if args[i + 1] == "--type"@ {
                        assert(unsigned_digits(args[i + 1]) == args[i + 1]);
                        assert(!is_digit(args[i + 1][0]));
                    }
                }
            } else if a == "--type"@ {
                let v = args[i + 1];
                lemma_search_scan_type(args, i + 2, count, v, words);
                assert(v != "--type"@) by {
                    assert(v[0] != '-');
                }
                assert(t2 == search_scan(args, i + 2, count, v, words)->Ok_0.1);
                assert forall|k: int|
                    i <= k < args.len() && #[trigger] args[k] == "--type"@ && (forall|j: int|
                        k < j < args.len() ==> args[j] != "--type"@) implies k + 1 < args.len()
                    && t2 == args[k + 1] by {
                    if k == i {
                        assert forall|j: int| i + 2 <= j < args.len() implies #[trigger] args[j]
                            != "--type"@ by {}
                    }
                }
            } else {
                assert(!starts_with(a, "-"@));
                lemma_search_scan_type(args, i + 1, count, t, words.push(a));
                assert(a != "--type"@) by {
                    assert("--type"@[0] == '-');
                }
            }
        }
    }
}

/// A parsed search uses the search type named after the last `--type` flag of its command
/// line, and `auto` where there is none.
pub proof fn lemma_search_type_follows_flag(args: Seq<Seq<char>>)
    ensures
        parse_spec(args) matches Ok(CommandView::Search { search_type, .. }) ==> {
            &&& (forall|k: int| 1 <= k < args.len() ==> #[trigger] args[k] != "--type"@) ==> search_type
                == "auto"@
            &&& forall|k: int|
                1 <= k < args.len() && #[trigger] args[k] == "--type"@ && (forall|j: int|
                    k < j < args.len() ==> args[j] != "--type"@) ==> k + 1 < args.len()
                    && search_type == args[k + 1]
        },
{
    if args.len() > 0 && args[0] == "search"@ {
        let rest = args.drop_first();
        lemma_search_scan_type(rest, 0, 5, "auto"@, seq![]);
        if parse_spec(args) is Ok {
            assert forall|k: int| 1 <= k < args.len() implies #[trigger] args[k] == rest[k - 1] by {}
        }
    }
}

pub open spec fn parse_search_spec(args: Seq<Seq<char>>) -> Result<CommandView, Seq<char>> {
    match search_scan(args, 0, 5, "auto"@, seq![]) {
        Err(m) => Err(m),
        Ok((count, search_type, words)) => {
            let query = join(words, " "@);
            if trim(query).len() == 0 {
                Err("missing search query"@)
            } else {
                Ok(CommandView::Search { query, count, search_type })
            }
        },
    }
}

/// The state of a fetch command line after `args[..i]`: the `--md` and `--json` flags and the URL.
pub open spec fn fetch_scan(
    args: Seq<Seq<char>>,
    i: int,
    md: bool,
    json: bool,
    url: Option<Seq<char>>,
) -> Result<(bool, bool, Option<Seq<char>>), Seq<char>>
    decreases args.len() - i,
{
    if i < 0 || i >= args.len() {
        Ok((md, json, url))
    } else {
        let a = args[i];
        if a == "--md"@ {
            fetch_scan(args, i + 1, true, json, url)
        } else if a == "--json"@ {
            fetch_scan(args, i + 1, md, true, url)
        } else if starts_with(a, "-"@) {
            Err("unknown fetch flag `"@ + a + "`"@)
        } else if url is Some {
            Err("fetch accepts exactly one URL"@)
        } else {
            fetch_scan(args, i + 1, md, json, Some(a))
        }
    }
}

proof fn lemma_fetch_scan_md(args: Seq<Seq<char>>, i: int, md: bool, json: bool, url: Option<Seq<char>>)
    requires
        0 <= i <= args.len(),
    ensures
        fetch_scan(args, i, md, json, url) matches Ok((m, _, _)) ==> (m <==> (md || exists|k: int|
            i <= k < args.len() && #[trigger] args[k] == "--md"@)),
    decreases args.len() - i,
{
    if i < args.len() {
        let a = args[i];
        if a == "--md"@ {
            lemma_fetch_scan_md(args, i + 1, true, json, url);
        } else if a == "--json"@ {
            lemma_fetch_scan_md(args, i + 1, md, true, url);
        } else if !starts_with(a, "-"@) && url is None {
            lemma_fetch_scan_md(args, i + 1, md, json, Some(a));
        }
        if fetch_scan(args, i, md, json, url) is Ok {
            if exists|k: int| i <= k < args.len() && #[trigger] args[k] == "--md"@ {
                let k = choose|k: int| i <= k < args.len() && #[trigger] args[k] == "--md"@;
                if k > i {
                    assert(i + 1 <= k < args.len() && args[k] == "--md"@);
                }
            }
            if exists|k: int| i + 1 <= k < args.len() && #[trigger] args[k] == "--md"@ {
                let k = choose|k: int| i + 1 <= k < args.len() && #[trigger] args[k] == "--md"@;
                assert(i <= k < args.len() && args[k] == "--md"@);
            }
        }
    }
}

/// A fetch prints JSON unless `--md` is on its command line: the parsed fetch asks for
/// Markdown exactly when one of the arguments after `fetch` is `--md`.
pub proof fn lemma_fetch_output_mode(args: Seq<Seq<char>>)
    ensures
        parse_spec(args) matches Ok(CommandView::Fetch { url, md }) ==> (md <==> args.drop_first().contains(
            "--md"@,
        )),
{
    if args.len() > 0 && args[0] == "fetch"@ {
        let rest = args.drop_first();
        lemma_fetch_scan_md(rest, 0, false, false, None);
        if rest.contains("--md"@) {
            let k = choose|k: int| 0 <= k < rest.len() && rest[k] == "--md"@;
            assert(0 <= k < rest.len() && rest[k] == "--md"@);
        }
    }
}

pub open spec fn parse_fetch_spec(args: Seq<Seq<char>>) -> Result<CommandView, Seq<char>> {
    match fetch_scan(args, 0, false, false, None) {
        Err(m) => Err(m),
        Ok((md, json, url)) => if md && json {
            Err("choose only one output mode: --md or --json"@)
        } else {
            match url {
                None => Err("missing fetch URL"@),
                Some(u) => Ok(CommandView::Fetch { url: u, md }),
            }
        },
    }
}

pub open spec fn args_view(args: Seq<String>) -> Seq<Seq<char>> {
    args.map_values(|a: String| a@)
}

/// What a parse gave, seen as the meaning of the command line.
pub open spec fn parse_outcome(r: Result<Command, AppError>) -> Result<CommandView, Seq<char>> {
    match r {
        Ok(c) => Ok(c@),
        Err(AppError::Usage(m)) => Err(m@),
        Err(_) => Err(seq![]),
    }
}

fn usage_error(m: Vec<char>) -> (e: AppError)
    ensures
        e matches AppError::Usage(s) && s@ == m@,
{
    AppError::Usage(string_from(m.as_slice()))
}

fn usage_error_str(m: &str) -> (e: AppError)
    ensures
        e matches AppError::Usage(s) && s@ == m@,
{
    usage_error(chars_of(m))
}

/// `prefix`, `middle` and `suffix` one after the other.
fn framed(prefix: &str, middle: &[char], suffix: &str) -> (out: Vec<char>)
    ensures
        out@ == prefix@ + middle@ + suffix@,
{
    let mut out = chars_of(prefix);
    push_all(&mut out, middle);
    push_str(&mut out, suffix);
    out
}

/// Parses the arguments that follow the program name.
pub fn parse(args: Vec<String>) -> (res: Result<Command, AppError>)
    ensures
        parse_outcome(res) == parse_spec(args_view(args@)),
        res is Err ==> res matches Err(AppError::Usage(_)),
{
    let ghost av = args_view(args@);
    if args.len() == 0 {
        return Ok(Command::Help);
    }
    let first = chars_of(args[0].as_str());
    assert(first@ == av[0]);
    if eq_str(first.as_slice(), "-h") || eq_str(first.as_slice(), "--help") || eq_str(
        first.as_slice(),
        "help",
    ) {
        Ok(Command::Help)
    } else if eq_str(first.as_slice(), "--version") {
        Ok(Command::Version)
    } else if eq_str(first.as_slice(), "search") {
        parse_search(&args, 1)
    } else if eq_str(first.as_slice(), "fetch") {
        parse_fetch(&args, 1)
    } else {
        let mut m = framed("unknown command `", first.as_slice(), "`\n\n");
        push_str(&mut m, usage());
        Err(usage_error(m))
    }
}

fn parse_search(args: &Vec<String>, from: usize) -> (res: Result<Command, AppError>)
    requires
        from == 1,
        args@.len() >= 1,
    ensures
        parse_outcome(res) == parse_search_spec(args_view(args@).drop_first()),
        res is Err ==> res matches Err(AppError::Usage(_)),
{
    let ghost av = args_view(args@).drop_first();
    let mut count: usize = 5;
    let mut search_type: Vec<char> = chars_of("auto");
    let mut words: Vec<Vec<char>> = Vec::new();
    let mut index: usize = from;
    assert(words@.map_values(|w: Vec<char>| w@) =~= Seq::<Seq<char>>::empty());
    while index < args.len()
        invariant
            from == 1,
            1 <= index <= args@.len(),
            av == args_view(args@).drop_first(),
            av.len() + 1 == args@.len(),
            search_scan(av, 0, 5, "auto"@, seq![]) == search_scan(
                av,
                index - 1,
                count,
                search_type@,
                words@.map_values(|w: Vec<char>| w@),
            ),
        decreases args@.len() - index,
    {
        let a = chars_of(args[index].as_str());
        let ghost i = index - 1;
        assert(a@ == av[i]);
        if eq_str(a.as_slice(), "--json") {
            index += 1;
        } else if eq_str(a.as_slice(), "--count") || eq_str(a.as_slice(), "-n") {
            index += 1;
            if index >= args.len() {
                return Err(usage_error_str("missing value for --count"));
            }
            let raw = chars_of(args[index].as_str());
            assert(raw@ == av[i + 1]);
            match parse_usize_exec(raw.as_slice()) {
                None => {
                    return Err(usage_error_str("--count must be an integer between 1 and 20"));
                },
                Some(n) => {
                    if !(1 <= n && n <= 20) {
                        return Err(usage_error_str("--count must be between 1 and 20"));
                    }
                    count = n;
                },
            }
            index += 1;
        } else if eq_str(a.as_slice(), "--type") {
            index += 1;
            if index >= args.len() {
                return Err(usage_error_str("missing value for --type"));
            }
            let raw = chars_of(args[index].as_str());
            assert(raw@ == av[i + 1]);
            if !(eq_str(raw.as_slice(), "auto") || eq_str(raw.as_slice(), "neural") || eq_str(
                raw.as_slice(),
                "keyword",
            )) {
                return Err(usage_error_str("--type must be one of auto, neural, keyword"));
            }
            search_type = raw;
            index += 1;
        } else if a.len() > 0 && a[0] == '-' {
            assert(starts_with(a@, "-"@)) by {
                reveal_strlit("-");
                assert(a@.subrange(0, 1) =~= "-"@);
            }
            return Err(usage_error(framed("unknown search flag `", a.as_slice(), "`")));
        } else {
            proof {
                reveal_strlit("-");
                if starts_with(a@, "-"@) {
                    assert(a@.subrange(0, 1)[0] == a@[0]);
                }
            }
            let ghost old_words = words@.map_values(|w: Vec<char>| w@);
            words.push(a);
            assert(words@.map_values(|w: Vec<char>| w@) =~= old_words.push(av[i]));
            index += 1;
        }
    }
    let query = join_exec(&words, chars_of(" ").as_slice());
    proof {
        lemma_trim_empty(query@);
    }
    if all_whitespace(query.as_slice()) {
        return Err(usage_error_str("missing search query"));
    }
    Ok(
        Command::Search(
            SearchOptions {
                query: string_from(query.as_slice()),
                count,
                search_type: string_from(search_type.as_slice()),
            },
        ),
    )
}

fn parse_fetch(args: &Vec<String>, from: usize) -> (res: Result<Command, AppError>)
    requires
        from == 1,
        args@.len() >= 1,
    ensures
        parse_outcome(res) == parse_fetch_spec(args_view(args@).drop_first()),
        res is Err ==> res matches Err(AppError::Usage(_)),
{
    let ghost av = args_view(args@).drop_first();
    let mut md = false;
    let mut json = false;
    let mut url: Option<Vec<char>> = None;
    let mut index: usize = from;
    while index < args.len()
        invariant
            from == 1,
            1 <= index <= args@.len(),
            av == args_view(args@).drop_first(),
            av.len() + 1 == args@.len(),
            fetch_scan(av, 0, false, false, None) == fetch_scan(
                av,
                index - 1,
                md,
                json,
                match url {
                    Some(u) => Some(u@),
                    None => None,
                },
            ),
        decreases args@.len() - index,
    {
        let a = chars_of(args[index].as_str());
        let ghost i = index - 1;
        assert(a@ == av[i]);
        if eq_str(a.as_slice(), "--md") {
            md = true;
        } else if eq_str(a.as_slice(), "--json") {
            json = true;
        } else if a.len() > 0 && a[0] == '-' {
            assert(starts_with(a@, "-"@)) by {
                reveal_strlit("-");
                assert(a@.subrange(0, 1) =~= "-"@);
            }
            return Err(usage_error(framed("unknown fetch flag `", a.as_slice(), "`")));
        } else {
            proof {
                reveal_strlit("-");
                if starts_with(a@, "-"@) {
                    assert(a@.subrange(0, 1)[0] == a@[0]);
                }
            }
            if url.is_some() {
                return Err(usage_error_str("fetch accepts exactly one URL"));
            }
            url = Some(a);
        }
        index += 1;
    }
    if md && json {
        return Err(usage_error_str("choose only one output mode: --md or --json"));
    }
    match url {
        None => Err(usage_error_str("missing fetch URL")),
        Some(u) => Ok(Command::Fetch(FetchOptions { url: string_from(u.as_slice()), md })),
    }
}

} // verus!
