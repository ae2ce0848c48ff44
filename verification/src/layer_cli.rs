//! The `layer` subcommand of the control client: `layer list [--output
//! NAME]`, `layer promote HANDLE` and `layer demote HANDLE`.

use vstd::prelude::*;

verus! {

/// Help page a usage error or a help request points at.
#[derive(Clone, Copy, Debug, PartialEq, Eq, Structural)]
pub enum HelpTopic {
    Layer,
    LayerList,
    LayerPromote,
    LayerDemote,
}

/// A request on layer-shell surfaces sent to the compositor.
#[derive(Debug)]
pub enum LayerRequest {
    List { output: Option<String> },
    Promote { handle: u64 },
    Demote { handle: u64 },
}

/// A request sent to the compositor.
#[derive(Debug)]
pub enum Request {
    Layer(LayerRequest),
}

/// What parsing a command line gives: a help page to show or a request.
#[derive(Debug)]
pub enum ParseOutcome {
    Help(HelpTopic),
    Request(Request),
}

/// A command line that cannot be parsed, with the help page that explains it.
#[derive(Debug)]
pub struct UsageError {
    pub message: String,
    pub topic: HelpTopic,
}

/// A layer request with its strings taken as character sequences.
pub enum LayerRequestView {
    List { output: Option<Seq<char>> },
    Promote { handle: u64 },
    Demote { handle: u64 },
}

/// A parse outcome with its strings taken as character sequences.
pub enum ParseOutcomeView {
    Help(HelpTopic),
    Layer(LayerRequestView),
}

impl View for LayerRequest {
    type V = LayerRequestView;

    open spec fn view(&self) -> LayerRequestView {
        match self {
            LayerRequest::List { output } => LayerRequestView::List {
                output: match output {
                    Some(o) => Some(o@),
                    None => None,
                },
            },
            LayerRequest::Promote { handle } => LayerRequestView::Promote { handle: *handle },
            LayerRequest::Demote { handle } => LayerRequestView::Demote { handle: *handle },
        }
    }
}

impl View for ParseOutcome {
    type V = ParseOutcomeView;

    open spec fn view(&self) -> ParseOutcomeView {
        match self {
            ParseOutcome::Help(t) => ParseOutcomeView::Help(*t),
            ParseOutcome::Request(Request::Layer(r)) => ParseOutcomeView::Layer(r@),
        }
    }
}

impl View for UsageError {
    type V = (Seq<char>, HelpTopic);

    open spec fn view(&self) -> (Seq<char>, HelpTopic) {
        (self.message@, self.topic)
    }
}

/// A `Result` taken by the views of both sides.
pub open spec fn result_view<T: View, E: View>(r: Result<T, E>) -> Result<T::V, E::V> {
    match r {
        Ok(t) => Ok(t@),
        Err(e) => Err(e@),
    }
}

/// The arguments of a command line as character sequences.
pub open spec fn args_view(args: Seq<String>) -> Seq<Seq<char>> {
    args.map_values(|s: String| s@)
}

impl UsageError {
    pub fn new(message: String, topic: HelpTopic) -> (e: UsageError)
        ensures
            e.message == message,
            e.topic == topic,
    {
        UsageError { message, topic }
    }
}

/// Whether `s` holds exactly the characters of `lit`.
pub fn string_is(s: &String, lit: &str) -> (b: bool)
    ensures
        b == (s@ == lit@),
{
    let other = String::from_str(lit);
    *s == other
}

// ---------------------------------------------------------------------------
// Decimal numbers
// ---------------------------------------------------------------------------

pub open spec fn is_decimal_digit(c: char) -> bool {
    '0' <= c <= '9'
}

pub open spec fn all_decimal_digits(s: Seq<char>) -> bool {
    forall|i: int| 0 <= i < s.len() ==> is_decimal_digit(#[trigger] s[i])
}

/// Value of a string of decimal digits.
pub open spec fn decimal_value(s: Seq<char>) -> int
    decreases s.len(),
{
    if s.len() == 0 {
        0
    } else {
        decimal_value(s.drop_last()) * 10 + (s.last() as int - '0' as int)
    }
}

/// What `str::parse::<u64>` accepts: an optional '+', then one or more
/// decimal digits whose value fits in a `u64`.
pub open spec fn parse_u64_spec(s: Seq<char>) -> Option<u64> {
    let digits = if s.len() > 0 && s[0] == '+' {
        s.drop_first()
    } else {
        s
    };
    if digits.len() > 0 && all_decimal_digits(digits) && decimal_value(digits) <= u64::MAX {
        Some(decimal_value(digits) as u64)
    } else {
        None
    }
}

proof fn lemma_decimal_value_grows(s: Seq<char>, k: int)
    requires
        0 <= k <= s.len(),
        all_decimal_digits(s),
    ensures
        0 <= decimal_value(s.subrange(0, k)) <= decimal_value(s),
    decreases s.len() - k,
{
    if k < s.len() {
        lemma_decimal_value_grows(s, k + 1);
        let p = s.subrange(0, k + 1);
        assert(p.drop_last() =~= s.subrange(0, k));
        assert(is_decimal_digit(p.last()));
    } else {
        assert(s.subrange(0, k) =~= s);
        lemma_decimal_value_nonneg(s);
    }
}

proof fn lemma_decimal_value_nonneg(s: Seq<char>)
    requires
        all_decimal_digits(s),
    ensures
        decimal_value(s) >= 0,
    decreases s.len(),
{
    if s.len() > 0 {
        assert(is_decimal_digit(s.last()));
        assert(all_decimal_digits(s.drop_last()));
        lemma_decimal_value_nonneg(s.drop_last());
    }
}

/// Parses a decimal `u64` the way `str::parse::<u64>` does.
pub fn parse_u64(s: &String) -> (r: Option<u64>)
    ensures
        r == parse_u64_spec(s@),
{
    let n = s.as_str().unicode_len();
    let ghost cs = s@;
    let mut start: usize = 0;
    if n > 0 && s.as_str().get_char(0) == '+' {
        start = 1;
    }
    let ghost digits = cs.subrange(start as int, n as int);
    assert(digits =~= (if cs.len() > 0 && cs[0] == '+' { cs.drop_first() } else { cs }));
    if start == n {
        return None;
    }
    let mut acc: u64 = 0;
    let mut i = start;
    assert(digits.subrange(0, 0) =~= Seq::<char>::empty());
    while i < n
        invariant
            cs == s@,
            n == cs.len(),
            start <= i <= n,
            digits == cs.subrange(start as int, n as int),
            digits == (if cs.len() > 0 && cs[0] == '+' { cs.drop_first() } else { cs }),
            all_decimal_digits(digits.subrange(0, i - start)),
            acc == decimal_value(digits.subrange(0, i - start)),
        decreases n - i,
    {
        let c = s.as_str().get_char(i);
        let ghost pre = digits.subrange(0, i - start + 1);
        assert(pre.drop_last() =~= digits.subrange(0, i - start));
        assert(digits[i - start] == c);
        assert(pre.last() == c);
        if !('0' <= c && c <= '9') {
            assert(!is_decimal_digit(digits[i - start]));
            assert(!all_decimal_digits(digits));
            assert(parse_u64_spec(s@) is None);
            return None;
        }
        let d = (c as u32 - '0' as u32) as u64;
        assert(all_decimal_digits(pre)) by {
            assert forall|k: int| 0 <= k < pre.len() implies is_decimal_digit(#[trigger] pre[k]) by {
                if k < pre.len() - 1 {
                    assert(pre[k] == digits.subrange(0, i - start)[k]);
                }
            }
        }
        match acc.checked_mul(10) {
            Some(m) => match m.checked_add(d) {
                Some(v) => {
                    acc = v;
                },
                None => {
                    proof {
                        assert(decimal_value(pre) == acc * 10 + d);
                        if all_decimal_digits(digits) {
                            lemma_decimal_value_grows(digits, i - start + 1);
                        }
                    }
                    return None;
                },
            },
            None => {
                proof {
                    if all_decimal_digits(digits) {
                        lemma_decimal_value_grows(digits, i - start + 1);
                        lemma_decimal_value_nonneg(digits.subrange(0, i - start));
                    }
                }
                return None;
            },
        }
        i = i + 1;
    }
    assert(digits.subrange(0, n - start) =~= digits);
    Some(acc)
}


// ---------------------------------------------------------------------------
// Options
// ---------------------------------------------------------------------------

/// Whether a help flag (`-h` or `--help`) stands anywhere among the arguments.
pub open spec fn has_help_flag(args: Seq<Seq<char>>) -> bool {
    exists|i: int| 0 <= i < args.len() && (#[trigger] args[i] == "-h"@ || args[i] == "--help"@)
}

pub fn contains_help_flag(args: &[String]) -> (b: bool)
    ensures
        b == has_help_flag(args_view(args@)),
{
    let mut i: usize = 0;
    while i < args.len()
        invariant
            i <= args.len(),
            forall|k: int| 0 <= k < i ==> !(#[trigger] args_view(args@)[k] == "-h"@ || args_view(args@)[k] == "--help"@),
        decreases args.len() - i,
    {
        if string_is(&args[i], "-h") || string_is(&args[i], "--help") {
            assert(args_view(args@)[i as int] == args@[i as int]@);
            return true;
        }
        assert(args_view(args@)[i as int] == args@[i as int]@);
        i = i + 1;
    }
    false
}

/// The `--output NAME` option: each `--output` takes the next argument as
/// its value (a later one replaces an earlier one); any other argument is
/// refused.
pub open spec fn output_option_spec(
    args: Seq<Seq<char>>,
    found: Option<Seq<char>>,
    topic: HelpTopic,
) -> Result<Option<Seq<char>>, (Seq<char>, HelpTopic)>
    decreases args.len(),
{
    if args.len() == 0 {
        Ok(found)
    } else if args[0] == "--output"@ {
        if args.len() < 2 {
            Err(("missing value for --output"@, topic))
        } else {
            output_option_spec(args.skip(2), Some(args[1]), topic)
        }
    } else {
        Err(("unexpected argument: "@ + args[0], topic))
    }
}

pub open spec fn option_view(o: Option<String>) -> Option<Seq<char>> {
    match o {
        Some(s) => Some(s@),
        None => None,
    }
}

pub fn parse_output_option(args: &[String], topic: HelpTopic) -> (r: Result<Option<String>, UsageError>)
    ensures
        match r {
            Ok(o) => output_option_spec(args_view(args@), None, topic) == Ok::<
                Option<Seq<char>>,
                (Seq<char>, HelpTopic),
            >(option_view(o)),
            Err(e) => output_option_spec(args_view(args@), None, topic) == Err::<
                Option<Seq<char>>,
                (Seq<char>, HelpTopic),
            >(e@),
        },
{
    let ghost all = args_view(args@);
    let mut found: Option<String> = None;
    let mut i: usize = 0;
    assert(all.skip(0) =~= all);
    while i < args.len()
        invariant
            all == args_view(args@),
            i <= args.len(),
            output_option_spec(all, None, topic) == output_option_spec(all.skip(i as int), option_view(found), topic),
        decreases args.len() - i,
    {
        let ghost rest = all.skip(i as int);
        assert(rest[0] == args@[i as int]@);
        if string_is(&args[i], "--output") {
            if i + 1 >= args.len() {
                let e = UsageError::new(String::from_str("missing value for --output"), topic);
                return Err(e);
            }
            assert(rest[1] == args@[i + 1]@);
            assert(rest.skip(2) =~= all.skip(i + 2));
            found = Some(args[i + 1].clone());
            i = i + 2;
        } else {
            let mut m = String::from_str("unexpected argument: ");
            m.append(args[i].as_str());
            return Err(UsageError::new(m, topic));
        }
    }
    assert(all.skip(i as int) =~= Seq::<Seq<char>>::empty());
    Ok(found)
}

// ---------------------------------------------------------------------------
// The `layer` subcommand
// ---------------------------------------------------------------------------

/// The handle argument: the first argument read as a decimal `u64`.
pub open spec fn layer_handle_spec(args: Seq<Seq<char>>) -> Result<u64, (Seq<char>, HelpTopic)> {
    if args.len() == 0 {
        Err(("missing HANDLE argument"@, HelpTopic::Layer))
    } else {
        match parse_u64_spec(args[0]) {
            Some(h) => Ok(h),
            None => Err(
                (
                    "invalid HANDLE: "@ + args[0] + " (expected a number from `layer list`)"@,
                    HelpTopic::Layer,
                ),
            ),
        }
    }
}

pub open spec fn layer_list_spec(args: Seq<Seq<char>>) -> Result<ParseOutcomeView, (Seq<char>, HelpTopic)> {
    if has_help_flag(args) {
        Ok(ParseOutcomeView::Help(HelpTopic::LayerList))
    } else {
        match output_option_spec(args, None, HelpTopic::LayerList) {
            Ok(output) => Ok(ParseOutcomeView::Layer(LayerRequestView::List { output })),
            Err(e) => Err(e),
        }
    }
}

pub open spec fn layer_promote_spec(args: Seq<Seq<char>>) -> Result<ParseOutcomeView, (Seq<char>, HelpTopic)> {
    if has_help_flag(args) {
        Ok(ParseOutcomeView::Help(HelpTopic::LayerPromote))
    } else {
        match layer_handle_spec(args) {
            Ok(handle) => Ok(ParseOutcomeView::Layer(LayerRequestView::Promote { handle })),
            Err(e) => Err(e),
        }
    }
}

pub open spec fn layer_demote_spec(args: Seq<Seq<char>>) -> Result<ParseOutcomeView, (Seq<char>, HelpTopic)> {
    if has_help_flag(args) {
        Ok(ParseOutcomeView::Help(HelpTopic::LayerDemote))
    } else {
        match layer_handle_spec(args) {
            Ok(handle) => Ok(ParseOutcomeView::Layer(LayerRequestView::Demote { handle })),
            Err(e) => Err(e),
        }
    }
}

/// `layer` with no argument or a help flag shows the help; `list`,
/// `promote` and `demote` parse the rest of the line; any other word is an
/// unknown command.
pub open spec fn layer_request_spec(args: Seq<Seq<char>>) -> Result<ParseOutcomeView, (Seq<char>, HelpTopic)> {
    if args.len() == 0 || args[0] == "-h"@ || args[0] == "--help"@ {
        Ok(ParseOutcomeView::Help(HelpTopic::Layer))
    } else if args[0] == "list"@ {
        layer_list_spec(args.drop_first())
    } else if args[0] == "promote"@ {
        layer_promote_spec(args.drop_first())
    } else if args[0] == "demote"@ {
        layer_demote_spec(args.drop_first())
    } else {
        Err(("unknown layer command: "@ + args[0], HelpTopic::Layer))
    }
}

proof fn lemma_command_words_differ()
    ensures
        "list"@ != "promote"@,
        "list"@ != "demote"@,
        "promote"@ != "demote"@,
        "-h"@ != "list"@ && "-h"@ != "promote"@ && "-h"@ != "demote"@,
        "--help"@ != "list"@ && "--help"@ != "promote"@ && "--help"@ != "demote"@,
        "-h"@ != "--output"@ && "--help"@ != "--output"@,
{
    reveal_strlit("list");
    reveal_strlit("promote");
    reveal_strlit("demote");
    reveal_strlit("-h");
    reveal_strlit("--help");
    reveal_strlit("--output");
    assert("list"@.len() != "promote"@.len());
    assert("list"@.len() != "demote"@.len());
    assert("promote"@.len() != "demote"@.len());
    assert("-h"@.len() != "list"@.len() && "-h"@.len() != "promote"@.len() && "-h"@.len() != "demote"@.len());
    assert("--help"@[2] != "list"@[2] && "--help"@.len() != "promote"@.len() && "--help"@[0] != "demote"@[0]);
    assert("-h"@.len() != "--output"@.len() && "--help"@.len() != "--output"@.len());
}

/// What each form of the `layer` command line asks for: no argument shows
/// the layer help; `promote N` and `demote N` promote and demote the
/// surface with handle N; `promote` or `demote` without a handle is the
/// "missing HANDLE argument" error; `list` lists every output and
/// `list --output NAME` lists the output NAME.
pub proof fn lemma_layer_command_forms(word: Seq<char>, handle: Seq<char>, name: Seq<char>)
    ensures
        layer_request_spec(Seq::empty()) == Ok::<ParseOutcomeView, (Seq<char>, HelpTopic)>(
            ParseOutcomeView::Help(HelpTopic::Layer),
        ),
        parse_u64_spec(handle) matches Some(h) ==> (handle != "-h"@ && handle != "--help"@ ==> layer_request_spec(
            seq!["promote"@, handle],
        ) == Ok::<ParseOutcomeView, (Seq<char>, HelpTopic)>(
            ParseOutcomeView::Layer(LayerRequestView::Promote { handle: h }),
        )),
        parse_u64_spec(handle) matches Some(h) ==> (handle != "-h"@ && handle != "--help"@ ==> layer_request_spec(
            seq!["demote"@, handle],
        ) == Ok::<ParseOutcomeView, (Seq<char>, HelpTopic)>(
            ParseOutcomeView::Layer(LayerRequestView::Demote { handle: h }),
        )),
        layer_request_spec(seq!["promote"@]) == Err::<ParseOutcomeView, (Seq<char>, HelpTopic)>(
            ("missing HANDLE argument"@, HelpTopic::Layer),
        ),
        layer_request_spec(seq!["demote"@]) == Err::<ParseOutcomeView, (Seq<char>, HelpTopic)>(
            ("missing HANDLE argument"@, HelpTopic::Layer),
        ),
        layer_request_spec(seq!["list"@]) == Ok::<ParseOutcomeView, (Seq<char>, HelpTopic)>(
            ParseOutcomeView::Layer(LayerRequestView::List { output: None }),
        ),
        name != "-h"@ && name != "--help"@ ==> layer_request_spec(seq!["list"@, "--output"@, name]) == Ok::<
            ParseOutcomeView,
            (Seq<char>, HelpTopic),
        >(ParseOutcomeView::Layer(LayerRequestView::List { output: Some(name) })),
{
    lemma_command_words_differ();
    let p = seq!["promote"@, handle];
    assert(p.drop_first() =~= seq![handle]);
    assert(!has_help_flag(seq![handle]) <== (handle != "-h"@ && handle != "--help"@));
    let d = seq!["demote"@, handle];
    assert(d.drop_first() =~= seq![handle]);
    assert(seq!["promote"@].drop_first() =~= Seq::<Seq<char>>::empty());
    assert(seq!["demote"@].drop_first() =~= Seq::<Seq<char>>::empty());
    assert(seq!["list"@].drop_first() =~= Seq::<Seq<char>>::empty());
    assert(!has_help_flag(Seq::<Seq<char>>::empty()));
    assert(output_option_spec(Seq::<Seq<char>>::empty(), None, HelpTopic::LayerList) == Ok::<
        Option<Seq<char>>,
        (Seq<char>, HelpTopic),
    >(None));
    let l = seq!["list"@, "--output"@, name];
    let rest = seq!["--output"@, name];
    assert(l.drop_first() =~= rest);
    assert(rest.skip(2) =~= Seq::<Seq<char>>::empty());
    if name != "-h"@ && name != "--help"@ {
        assert(!has_help_flag(rest)) by {
            assert forall|i: int| 0 <= i < rest.len() implies !(#[trigger] rest[i] == "-h"@ || rest[i] == "--help"@) by {
                if i == 0 {
                    assert(rest[0] == "--output"@);
                }
            }
        }
        assert(output_option_spec(rest, None, HelpTopic::LayerList) == output_option_spec(
            rest.skip(2),
            Some(name),
            HelpTopic::LayerList,
        ));
    }
}

pub fn parse_layer_handle(args: &[String]) -> (r: Result<u64, UsageError>)
    ensures
        match r {
            Ok(h) => layer_handle_spec(args_view(args@)) == Ok::<u64, (Seq<char>, HelpTopic)>(h),
            Err(e) => layer_handle_spec(args_view(args@)) == Err::<u64, (Seq<char>, HelpTopic)>(e@),
        },
{
    if args.len() == 0 {
        return Err(UsageError::new(String::from_str("missing HANDLE argument"), HelpTopic::Layer));
    }
    let raw = &args[0];
    assert(args_view(args@)[0] == raw@);
    match parse_u64(raw) {
        Some(h) => Ok(h),
        None => {
            let mut m = String::from_str("invalid HANDLE: ");
            m.append(raw.as_str());
            m.append(" (expected a number from `layer list`)");
            Err(UsageError::new(m, HelpTopic::Layer))
        },
    }
}

fn parse_layer_list(args: &[String]) -> (r: Result<ParseOutcome, UsageError>)
    ensures
        result_view(r) == layer_list_spec(args_view(args@)),
{
    if contains_help_flag(args) {
        return Ok(ParseOutcome::Help(HelpTopic::LayerList));
    }
    match parse_output_option(args, HelpTopic::LayerList) {
        Ok(output) => Ok(ParseOutcome::Request(Request::Layer(LayerRequest::List { output }))),
        Err(e) => Err(e),
    }
}

fn parse_layer_promote(args: &[String]) -> (r: Result<ParseOutcome, UsageError>)
    ensures
        result_view(r) == layer_promote_spec(args_view(args@)),
{
    if contains_help_flag(args) {
        return Ok(ParseOutcome::Help(HelpTopic::LayerPromote));
    }
    match parse_layer_handle(args) {
        Ok(handle) => Ok(ParseOutcome::Request(Request::Layer(LayerRequest::Promote { handle }))),
        Err(e) => Err(e),
    }
}

fn parse_layer_demote(args: &[String]) -> (r: Result<ParseOutcome, UsageError>)
    ensures
        result_view(r) == layer_demote_spec(args_view(args@)),
{
    if contains_help_flag(args) {
        return Ok(ParseOutcome::Help(HelpTopic::LayerDemote));
    }
    match parse_layer_handle(args) {
        Ok(handle) => Ok(ParseOutcome::Request(Request::Layer(LayerRequest::Demote { handle }))),
        Err(e) => Err(e),
    }
}

/// Parses the arguments after `layer`.
pub fn parse_layer_request(args: &[String]) -> (r: Result<ParseOutcome, UsageError>)
    ensures
        result_view(r) == layer_request_spec(args_view(args@)),
{
    if args.len() == 0 {
        return Ok(ParseOutcome::Help(HelpTopic::Layer));
    }
    let first = &args[0];
    assert(args_view(args@)[0] == first@);
    let rest = &args[1..args.len()];
    assert(args_view(rest@) =~= args_view(args@).drop_first());
    if string_is(first, "-h") || string_is(first, "--help") {
        Ok(ParseOutcome::Help(HelpTopic::Layer))
    } else if string_is(first, "list") {
        parse_layer_list(rest)
    } else if string_is(first, "promote") {
        parse_layer_promote(rest)
    } else if string_is(first, "demote") {
        parse_layer_demote(rest)
    } else {
        let mut m = String::from_str("unknown layer command: ");
        m.append(first.as_str());
        Err(UsageError::new(m, HelpTopic::Layer))
    }
}

} // verus!
