//! Command-line arguments and what they ask for.

use crate::json;
use crate::json::Json;
use crate::ordered_map::OrderedMap;
use crate::text;
use crate::text::{concat2, split_once, starts_with, str_eq, strip_prefix};
use vstd::prelude::*;

#[allow(unused_imports)]
use crate::json::JsonView;
#[allow(unused_imports)]
use crate::ordered_map;

verus! {

// ---------------------------------------------------------------------------
// the arguments
// ---------------------------------------------------------------------------

/// Whether an argument is a flag.
pub open spec fn is_flag(arg: Seq<char>) -> bool {
    "--"@.is_prefix_of(arg)
}

/// What follows the dashes of a flag.
pub open spec fn flag_body(arg: Seq<char>) -> Seq<char> {
    arg.skip("--"@.len() as int)
}

/// Whether a flag takes its value from the next argument, if it takes one.
pub open spec fn is_open_flag(arg: Seq<char>) -> bool {
    is_flag(arg) && text::split_at_char(flag_body(arg), '=') is None
}

/// Whether the argument at `i` is the value of the flag before it: a flag is
/// never swallowed as a value.
pub open spec fn is_value(args: Seq<Seq<char>>, i: int) -> bool {
    0 < i < args.len() && is_open_flag(args[i - 1]) && !is_flag(args[i])
}

/// The key and the value that the flag at `i` sets.
pub open spec fn setting_at(args: Seq<Seq<char>>, i: int) -> (Seq<char>, Seq<char>) {
    match text::split_at_char(flag_body(args[i]), '=') {
        Some((key, value)) => (key, value),
        None => (
            flag_body(args[i]),
            if is_value(args, i + 1) {
                args[i + 1]
            } else {
                seq![]
            },
        ),
    }
}

/// What the flags among the first `n` arguments set, a later one over an
/// earlier one of the same key.
pub open spec fn settings(args: Seq<Seq<char>>, n: int) -> Seq<(Seq<char>, Seq<char>)>
    decreases n,
{
    if n <= 0 {
        seq![]
    } else if is_flag(args[n - 1]) {
        let (key, value) = setting_at(args, n - 1);
        ordered_map::inserted(settings(args, n - 1), key, value)
    } else {
        settings(args, n - 1)
    }
}

/// The first `n` arguments that are neither flags nor their values.
pub open spec fn operands(args: Seq<Seq<char>>, n: int) -> Seq<Seq<char>>
    decreases n,
{
    if n <= 0 {
        seq![]
    } else if is_flag(args[n - 1]) || is_value(args, n - 1) {
        operands(args, n - 1)
    } else {
        operands(args, n - 1).push(args[n - 1])
    }
}

/// The flags of a command line.
#[derive(Debug)]
pub struct Flags {
    map: OrderedMap<String>,
}

/// The texts of a map's values.
pub open spec fn text_entries(e: Seq<(Seq<char>, String)>) -> Seq<(Seq<char>, Seq<char>)> {
    Seq::new(e.len(), |i: int| (e[i].0, e[i].1@))
}

impl View for Flags {
    type V = Seq<(Seq<char>, Seq<char>)>;

    closed spec fn view(&self) -> Seq<(Seq<char>, Seq<char>)> {
        text_entries(self.map@)
    }
}

proof fn lemma_text_lookup(e: Seq<(Seq<char>, String)>, key: Seq<char>)
    ensures
        ordered_map::lookup(text_entries(e), key) == text::opt_view(ordered_map::lookup(e, key)),
    decreases e.len(),
{
    if e.len() > 0 {
        lemma_text_lookup(e.skip(1), key);
        assert(text_entries(e).skip(1) =~= text_entries(e.skip(1)));
    }
}

proof fn lemma_text_inserted(e: Seq<(Seq<char>, String)>, key: Seq<char>, v: String)
    ensures
        text_entries(ordered_map::inserted(e, key, v)) == ordered_map::inserted(
            text_entries(e),
            key,
            v@,
        ),
{
    lemma_text_lookup(e, key);
    assert(text_entries(ordered_map::inserted(e, key, v)) =~= ordered_map::inserted(
        text_entries(e),
        key,
        v@,
    ));
}

impl Flags {
    /// No key stands twice.
    pub closed spec fn well_formed(&self) -> bool {
        ordered_map::distinct(self.map@)
    }

    /// No flags.
    pub fn new() -> (r: Self)
        ensures
            r@ == Seq::<(Seq<char>, Seq<char>)>::empty(),
            r.well_formed(),
    {
        let r = Flags { map: OrderedMap::new() };
        assert(r@ =~= seq![]);
        r
    }

    /// Sets a flag.
    pub fn insert(&mut self, key: &str, value: String)
        requires
            old(self).well_formed(),
        ensures
            final(self).well_formed(),
            final(self)@ == ordered_map::inserted(old(self)@, key@, value@),
    {
        proof {
            lemma_text_inserted(self.map@, key@, value);
        }
        self.map.insert(key, value);
    }

    /// The value of a flag; empty where it was given without one.
    pub fn get(&self, key: &str) -> (r: Option<&String>)
        requires
            self.well_formed(),
        ensures
            match r {
                Some(v) => ordered_map::lookup(self@, key@) == Some(v@),
                None => ordered_map::lookup(self@, key@) is None,
            },
    {
        proof {
            lemma_text_lookup(self.map@, key@);
        }
        self.map.get(key)
    }

    /// Whether a flag was given.
    pub fn contains_key(&self, key: &str) -> (r: bool)
        requires
            self.well_formed(),
        ensures
            r == (ordered_map::lookup(self@, key@) is Some),
    {
        self.get(key).is_some()
    }
}

/// Parses `--key value` style arguments into flags and positionals.
///
/// A flag whose next argument is itself a flag (as in `--line --provider mock`)
/// is a bare flag, and the next argument is parsed normally: it is never
/// swallowed as a value.
pub fn parse_args(args: &[String]) -> (r: (Flags, Vec<String>))
    ensures
        r.0.well_formed(),
        r.0@ == settings(text::views(args@), args@.len() as int),
        text::views(r.1@) == operands(text::views(args@), args@.len() as int),
{
    let ghost all = text::views(args@);
    let mut flags = Flags::new();
    let mut positionals: Vec<String> = Vec::new();
    assert(text::views(positionals@) =~= seq![]);
    let mut i: usize = 0;
    while i < args.len()
        invariant
            i <= args.len(),
            all == text::views(args@),
            all.len() == args.len(),
            flags.well_formed(),
            flags@ == settings(all, i as int),
            text::views(positionals@) == operands(all, i as int),
            !is_value(all, i as int),
        decreases args.len() - i,
    {
        let arg = args[i].as_str();
        assert(all[i as int] == arg@);
        match strip_prefix(arg, "--") {
            Some(body) => {
                assert(body@ == flag_body(all[i as int]));
                match split_once(body.as_str(), '=') {
                    Some((key, value)) => {
                        flags.insert(key.as_str(), value);
                        i = i + 1;
                    },
                    None => {
                        if i + 1 < args.len() && !starts_with(args[i + 1].as_str(), "--") {
                            assert(all[i + 1] == args@[i + 1]@);
                            assert(is_value(all, i + 1));
                            let value = args[i + 1].clone();
                            flags.insert(body.as_str(), value);
                            assert(settings(all, i + 2) == settings(all, i + 1));
                            assert(operands(all, i + 2) == operands(all, i + 1));
                            i = i + 2;
                        } else {
                            if i + 1 < args.len() {
                                assert(all[i + 1] == args@[i + 1]@);
                            }
                            assert(!is_value(all, i + 1));
                            proof {
                                reveal_strlit("");
                                assert(""@ =~= seq![]);
                            }
                            flags.insert(body.as_str(), String::new());
                            i = i + 1;
                        }
                    },
                }
            },
            None => {
                let ghost before = text::views(positionals@);
                positionals.push(args[i].clone());
                assert(text::views(positionals@) =~= before.push(all[i as int]));
                i = i + 1;
            },
        }
    }
    (flags, positionals)
}

/// The value of a flag, if it was given one.
pub open spec fn flag_value(
    flags: Seq<(Seq<char>, Seq<char>)>,
    key: Seq<char>,
) -> Option<Seq<char>> {
    match ordered_map::lookup(flags, key) {
        Some(v) => if v.len() == 0 {
            None
        } else {
            Some(v)
        },
        None => None,
    }
}

/// The value of a flag, if it was given one.
pub fn flag(flags: &Flags, key: &str) -> (r: Option<String>)
    requires
        flags.well_formed(),
    ensures
        text::opt_view(r) == flag_value(flags@, key@),
{
    match flags.get(key) {
        Some(v) => if v.as_str().is_empty() {
            None
        } else {
            Some(v.clone())
        },
        None => None,
    }
}

// ---------------------------------------------------------------------------
// commands
// ---------------------------------------------------------------------------

/// What the command line asks for.
#[derive(Debug, PartialEq)]
pub enum Command {
    /// Run one prompt.
    Run,
    /// An interactive chat.
    Chat,
    /// Print a stored session.
    Transcript,
    /// List the provider routes.
    Providers,
    /// Print the help.
    Help,
    /// Something that is no command.
    Unknown { name: String },
}

/// What a [`Command`] says.
#[verifier::ext_equal]
pub enum CommandView {
    Run,
    Chat,
    Transcript,
    Providers,
    Help,
    Unknown { name: Seq<char> },
}

impl View for Command {
    type V = CommandView;

    open spec fn view(&self) -> CommandView {
        match *self {
            Command::Run => CommandView::Run,
            Command::Chat => CommandView::Chat,
            Command::Transcript => CommandView::Transcript,
            Command::Providers => CommandView::Providers,
            Command::Help => CommandView::Help,
            Command::Unknown { name } => CommandView::Unknown { name: name@ },
        }
    }
}

impl Clone for Command {
    fn clone(&self) -> (r: Self)
        ensures
            r@ == self@,
    {
        match self {
            Command::Run => Command::Run,
            Command::Chat => Command::Chat,
            Command::Transcript => Command::Transcript,
            Command::Providers => Command::Providers,
            Command::Help => Command::Help,
            Command::Unknown { name } => Command::Unknown { name: name.clone() },
        }
    }
}

/// The command that flags and positionals ask for.
pub open spec fn command_of(
    flags: Seq<(Seq<char>, Seq<char>)>,
    positionals: Seq<Seq<char>>,
) -> CommandView {
    let name = if positionals.len() == 0 {
        "run"@
    } else {
        positionals[0]
    };
    if ordered_map::lookup(flags, "help"@) is Some || ordered_map::lookup(flags, "h"@) is Some {
        CommandView::Help
    } else if name == "run"@ {
        CommandView::Run
    } else if name == "chat"@ {
        CommandView::Chat
    } else if name == "transcript"@ {
        CommandView::Transcript
    } else if name == "providers"@ {
        CommandView::Providers
    } else if name == "help"@ || name == "--help"@ || name == "-h"@ {
        CommandView::Help
    } else {
        CommandView::Unknown { name }
    }
}

/// The command that flags and positionals ask for.
pub fn command(flags: &Flags, positionals: &Vec<String>) -> (r: Command)
    requires
        flags.well_formed(),
    ensures
        r@ == command_of(flags@, text::views(positionals@)),
{
    if flags.contains_key("help") || flags.contains_key("h") {
        return Command::Help;
    }
    let name: &str = if positionals.len() == 0 {
        "run"
    } else {
        positionals[0].as_str()
    };
    if str_eq(name, "run") {
        Command::Run
    } else if str_eq(name, "chat") {
        Command::Chat
    } else if str_eq(name, "transcript") {
        Command::Transcript
    } else if str_eq(name, "providers") {
        Command::Providers
    } else if str_eq(name, "help") || str_eq(name, "--help") || str_eq(name, "-h") {
        Command::Help
    } else {
        Command::Unknown { name: name.to_owned() }
    }
}

/// The second positional.
pub open spec fn second(positionals: Seq<Seq<char>>) -> Option<Seq<char>> {
    if positionals.len() > 1 {
        Some(positionals[1])
    } else {
        None
    }
}

fn second_of(positionals: &Vec<String>) -> (r: Option<String>)
    ensures
        text::opt_view(r) == second(text::views(positionals@)),
{
    if positionals.len() > 1 {
        Some(positionals[1].clone())
    } else {
        None
    }
}

/// The prompt to run: `--prompt`, else what follows the command.
pub open spec fn prompt_of(
    flags: Seq<(Seq<char>, Seq<char>)>,
    positionals: Seq<Seq<char>>,
) -> Result<Seq<char>, Seq<char>> {
    match flag_value(flags, "prompt"@) {
        Some(p) => Ok(p),
        None => match second(positionals) {
            Some(p) => Ok(p),
            None => Err("run requires --prompt"@),
        },
    }
}

/// The prompt to run: `--prompt`, else what follows the command.
pub fn run_prompt(flags: &Flags, positionals: &Vec<String>) -> (r: Result<String, String>)
    requires
        flags.well_formed(),
    ensures
        prompt_of(flags@, text::views(positionals@)) == (match r {
            Ok(p) => Ok::<Seq<char>, Seq<char>>(p@),
            Err(m) => Err::<Seq<char>, Seq<char>>(m@),
        }),
{
    match flag(flags, "prompt") {
        Some(p) => Ok(p),
        None => match second_of(positionals) {
            Some(p) => Ok(p),
            None => Err("run requires --prompt".to_owned()),
        },
    }
}

/// Which stored session to print: its id and the store's directory.
pub open spec fn source_of(
    flags: Seq<(Seq<char>, Seq<char>)>,
    positionals: Seq<Seq<char>>,
) -> Result<(Seq<char>, Seq<char>), Seq<char>> {
    match second(positionals) {
        None => Err("transcript requires a session id"@),
        Some(id) => match flag_value(flags, "store"@) {
            None => Err("transcript requires --store DIR"@),
            Some(dir) => Ok((id, dir)),
        },
    }
}

/// Which stored session to print: its id and the store's directory.
pub fn transcript_source(flags: &Flags, positionals: &Vec<String>) -> (r: Result<
    (String, String),
    String,
>)
    requires
        flags.well_formed(),
    ensures
        source_of(flags@, text::views(positionals@)) == (match r {
            Ok((id, dir)) => Ok::<(Seq<char>, Seq<char>), Seq<char>>((id@, dir@)),
            Err(m) => Err::<(Seq<char>, Seq<char>), Seq<char>>(m@),
        }),
{
    match second_of(positionals) {
        None => Err("transcript requires a session id".to_owned()),
        Some(id) => match flag(flags, "store") {
            None => Err("transcript requires --store DIR".to_owned()),
            Some(dir) => Ok((id, dir)),
        },
    }
}

// ---------------------------------------------------------------------------
// profiles
// ---------------------------------------------------------------------------

/// Whether a profile is given inline.
pub open spec fn is_inline(source: Seq<char>) -> bool {
    text::trim(source).len() > 0 && text::trim(source)[0] == '{'
}

/// The message of a profile that is no JSON.
pub open spec fn profile_result(
    parsed: Result<JsonView, Seq<char>>,
    lead: Seq<char>,
) -> Result<JsonView, Seq<char>> {
    match parsed {
        Ok(v) => Ok(v),
        Err(m) => Err(lead + m),
    }
}

/// What a reader of JSON returns, by its view.
pub open spec fn json_result(r: Result<Json, String>) -> Result<JsonView, Seq<char>> {
    match r {
        Ok(v) => Ok(v@),
        Err(m) => Err(m@),
    }
}

/// Says which text was no JSON.
pub fn explain(parsed: Result<Json, String>, lead: &str) -> (r: Result<Json, String>)
    ensures
        json_result(r) == profile_result(json_result(parsed), lead@),
{
    match parsed {
        Ok(v) => Ok(v),
        Err(m) => Err(concat2(lead, m.as_str())),
    }
}

/// Loads a JSON profile that is given inline; `None` where `source` is the
/// path of a file.
pub fn inline_profile(source: &str) -> (r: Option<Result<Json, String>>)
    ensures
        match r {
            Some(p) => is_inline(source@) && json_result(p) == profile_result(
                json::json_of_text(text::trim(source@)),
                "bad profile JSON: "@,
            ),
            None => !is_inline(source@),
        },
{
    let trimmed = text::trimmed(source);
    let v = text::chars_of(trimmed.as_str());
    if v.len() > 0 && v[0] == '{' {
        Some(explain(json::read(trimmed.as_str()), "bad profile JSON: "))
    } else {
        None
    }
}

/// The profile that `source` gives inline, else the one in the file `source`,
/// from what reading that file gave.
pub open spec fn profile_of(source: Seq<char>, content: Result<Seq<char>, Seq<char>>) -> Result<
    JsonView,
    Seq<char>,
> {
    if is_inline(source) {
        profile_result(json::json_of_text(text::trim(source)), "bad profile JSON: "@)
    } else {
        match content {
            Ok(content) => profile_result(
                json::json_of_text(content),
                "bad profile JSON in "@ + source + ": "@,
            ),
            Err(m) => Err("cannot read "@ + source + ": "@ + m),
        }
    }
}

/// Loads a JSON profile: the one that `source` gives inline, else the one in
/// the file `source`, from what reading that file gave.
pub fn load_profile(source: &str, content: &Result<String, String>) -> (r: Result<Json, String>)
    ensures
        json_result(r) == profile_of(
            source@,
            match *content {
                Ok(content) => Ok(content@),
                Err(m) => Err(m@),
            },
        ),
{
    if let Some(inline) = inline_profile(source) {
        return inline;
    }
    match content {
        Ok(content) => {
            let lead = text::concat3("bad profile JSON in ", source, ": ");
            explain(json::read(content.as_str()), lead.as_str())
        },
        Err(m) => Err(text::concat4("cannot read ", source, ": ", m.as_str())),
    }
}

// ---------------------------------------------------------------------------
// laws
// ---------------------------------------------------------------------------

/// A flag that stands before another flag is set to nothing, and the other one
/// is set as if it stood alone.
pub proof fn law_flag_is_never_a_value(args: Seq<Seq<char>>, i: int)
    requires
        0 <= i,
        i + 1 < args.len(),
        is_open_flag(args[i]),
        is_flag(args[i + 1]),
    ensures
        setting_at(args, i) == (flag_body(args[i]), Seq::<char>::empty()),
        !is_value(args, i + 1),
        settings(args, i + 2) == ordered_map::inserted(
            settings(args, i + 1),
            setting_at(args, i + 1).0,
            setting_at(args, i + 1).1,
        ),
{
}

/// A flag that is given twice has the later value.
pub proof fn law_later_flag_wins(args: Seq<Seq<char>>, i: int)
    requires
        0 <= i < args.len(),
        is_flag(args[i]),
    ensures
        ordered_map::lookup(settings(args, i + 1), setting_at(args, i).0) == Some(
            setting_at(args, i).1,
        ),
{
    let before = settings(args, i);
    lemma_settings_distinct(args, i);
    ordered_map::law_insert_then_lookup(
        before,
        setting_at(args, i).0,
        setting_at(args, i).1,
        setting_at(args, i).0,
    );
}

proof fn lemma_settings_distinct(args: Seq<Seq<char>>, n: int)
    ensures
        ordered_map::distinct(settings(args, n)),
    decreases n,
{
    if n > 0 {
        lemma_settings_distinct(args, n - 1);
        if is_flag(args[n - 1]) {
            let (key, value) = setting_at(args, n - 1);
            ordered_map::lemma_inserted_distinct(settings(args, n - 1), key, value);
        }
    }
}

/// The positionals are the arguments that are neither flags nor their values,
/// in order.
pub proof fn law_positionals_are_what_is_left(args: Seq<Seq<char>>, n: int)
    requires
        0 <= n <= args.len(),
    ensures
        operands(args, n) == Seq::new(n as nat, |i: int| i).filter(
            |i: int| !is_flag(args[i]) && !is_value(args, i),
        ).map_values(|i: int| args[i]),
    decreases n,
{
    let rest = |i: int| !is_flag(args[i]) && !is_value(args, i);
    let arg = |i: int| args[i];
    reveal(Seq::filter);
    if n > 0 {
        law_positionals_are_what_is_left(args, n - 1);
        let all = Seq::new(n as nat, |i: int| i);
        let before = Seq::new((n - 1) as nat, |i: int| i);
        assert(all.drop_last() =~= before);
        assert(all.last() == n - 1);
        if rest(n - 1) {
            assert(before.filter(rest).push(n - 1).map_values(arg) =~= before.filter(
                rest,
            ).map_values(arg).push(args[n - 1]));
        }
    }
}

proof fn lemma_split_at(key: Seq<char>, value: Seq<char>, c: char)
    requires
        !key.contains(c),
    ensures
        text::split_at_char(key + seq![c] + value, c) == Some((key, value)),
        text::split_at_char(key, c) is None,
{
    let s = key + seq![c] + value;
    assert(s.take(key.len() as int) =~= key);
    assert(key.take(key.len() as int) =~= key);
    lemma_position_at(s, c, key.len() as int, key);
    lemma_position_at(key, c, key.len() as int, key);
    assert(s.skip(key.len() as int + 1) =~= value);
}

proof fn lemma_position_at(s: Seq<char>, c: char, at: int, key: Seq<char>)
    requires
        at == key.len() <= s.len(),
        s.take(at) == key,
        !key.contains(c),
        at < s.len() ==> s[at] == c,
    ensures
        text::position(s, c) == at,
    decreases at,
{
    if at > 0 {
        assert(key.contains(key[0]));
        assert(s[0] == s.take(at)[0]);
        let rest = key.skip(1);
        assert(s.skip(1).take(at - 1) =~= rest);
        assert(!rest.contains(c)) by {
            if rest.contains(c) {
                let i = choose|i: int| 0 <= i < rest.len() && rest[i] == c;
                assert(key[i + 1] == c);
            }
        }
        lemma_position_at(s.skip(1), c, at - 1, rest);
    }
}

/// A flag sets the key behind its dashes: to what stands behind its equals sign,
/// or to the next argument unless that is a flag, or to nothing.
pub proof fn law_flag_sets_its_key(
    args: Seq<Seq<char>>,
    i: int,
    key: Seq<char>,
    value: Seq<char>,
)
    requires
        0 <= i < args.len(),
        !key.contains('='),
    ensures
        args[i] == seq!['-', '-'] + (key + seq!['='] + value) ==> is_flag(args[i]) && setting_at(
            args,
            i,
        ) == (key, value),
        args[i] == seq!['-', '-'] + key ==> is_flag(args[i]),
        args[i] == seq!['-', '-'] + key && i + 1 < args.len() && !(seq!['-', '-'].is_prefix_of(
            args[i + 1],
        )) ==> setting_at(args, i) == (key, args[i + 1]) && is_value(args, i + 1),
        args[i] == seq!['-', '-'] + key && (i + 1 == args.len() || seq!['-', '-'].is_prefix_of(
            args[i + 1],
        )) ==> setting_at(args, i) == (key, Seq::<char>::empty()),
        is_flag(args[i]) <==> seq!['-', '-'].is_prefix_of(args[i]),
{
    reveal_strlit("--");
    assert("--"@ =~= seq!['-', '-']);
    lemma_split_at(key, value, '=');
    let a = seq!['-', '-'] + (key + seq!['='] + value);
    let b = seq!['-', '-'] + key;
    assert(a.skip(2) =~= key + seq!['='] + value);
    assert(b.skip(2) =~= key);
    assert(seq!['-', '-'].is_prefix_of(a));
    assert(seq!['-', '-'].is_prefix_of(b));
}

/// What a flag has set stays set until a flag of the same key; arguments that
/// are no flags set nothing.
pub proof fn law_setting_stays(args: Seq<Seq<char>>, n: int, key: Seq<char>)
    requires
        0 <= n < args.len(),
    ensures
        settings(args, 0).len() == 0,
        !is_flag(args[n]) ==> settings(args, n + 1) == settings(args, n),
        is_flag(args[n]) && setting_at(args, n).0 != key ==> ordered_map::lookup(
            settings(args, n + 1),
            key,
        ) == ordered_map::lookup(settings(args, n), key),
{
    if is_flag(args[n]) {
        ordered_map::law_insert_then_lookup(
            settings(args, n),
            setting_at(args, n).0,
            setting_at(args, n).1,
            key,
        );
    }
}

/// A flag that was given a value has it; one that was given none, or was not
/// given, has none.
pub proof fn law_flag_has_its_value(
    flags: Seq<(Seq<char>, Seq<char>)>,
    key: Seq<char>,
    value: Seq<char>,
)
    ensures
        ordered_map::lookup(flags, key) == Some(value) && value.len() > 0 ==> flag_value(flags, key)
            == Some(value),
        ordered_map::lookup(flags, key) == Some(Seq::<char>::empty()) ==> flag_value(flags, key)
            is None,
        ordered_map::lookup(flags, key) is None ==> flag_value(flags, key) is None,
{
}

/// The first positional names the command, and without one the prompt is run. A
/// call for help comes before every command.
pub proof fn law_command_is_the_first_positional(
    flags: Seq<(Seq<char>, Seq<char>)>,
    positionals: Seq<Seq<char>>,
)
    ensures
        ({
            let c = command_of(flags, positionals);
            let asked = ordered_map::lookup(flags, "help"@) is Some || ordered_map::lookup(
                flags,
                "h"@,
            ) is Some;
            &&& asked ==> c == CommandView::Help
            &&& !asked && positionals.len() == 0 ==> c == CommandView::Run
            &&& !asked && positionals.len() > 0 ==> {
                let name = positionals[0];
                &&& c == CommandView::Run <==> name == "run"@
                &&& c == CommandView::Chat <==> name == "chat"@
                &&& c == CommandView::Transcript <==> name == "transcript"@
                &&& c == CommandView::Providers <==> name == "providers"@
                &&& c == CommandView::Help <==> name == "help"@ || name == "--help"@ || name
                    == "-h"@
                &&& c matches CommandView::Unknown { name: unknown } ==> unknown == name
            }
        }),
{
    reveal_strlit("run");
    reveal_strlit("chat");
    reveal_strlit("transcript");
    reveal_strlit("providers");
    reveal_strlit("help");
    reveal_strlit("--help");
    reveal_strlit("-h");
    assert("run"@.len() == 3 && "chat"@.len() == 4 && "transcript"@.len() == 10);
    assert("providers"@.len() == 9 && "help"@.len() == 4 && "--help"@.len() == 6);
    assert("-h"@.len() == 2 && "chat"@[0] != "help"@[0]);
}

/// The prompt of a run is the one that the flag gives, else what follows the
/// command; a run without either is refused.
pub proof fn law_prompt_comes_from_flag_or_command(
    flags: Seq<(Seq<char>, Seq<char>)>,
    positionals: Seq<Seq<char>>,
)
    ensures
        flag_value(flags, "prompt"@) matches Some(p) ==> prompt_of(flags, positionals) == Ok::<
            Seq<char>,
            Seq<char>,
        >(p),
        flag_value(flags, "prompt"@) is None && positionals.len() > 1 ==> prompt_of(
            flags,
            positionals,
        ) == Ok::<Seq<char>, Seq<char>>(positionals[1]),
        flag_value(flags, "prompt"@) is None && positionals.len() <= 1 ==> prompt_of(
            flags,
            positionals,
        ) == Err::<Seq<char>, Seq<char>>("run requires --prompt"@),
{
}

/// A transcript is that of the session which follows the command, from the store
/// that the flag names; both are needed.
pub proof fn law_transcript_names_session_and_store(
    flags: Seq<(Seq<char>, Seq<char>)>,
    positionals: Seq<Seq<char>>,
)
    ensures
        positionals.len() > 1 ==> (flag_value(flags, "store"@) matches Some(dir) ==> source_of(
            flags,
            positionals,
        ) == Ok::<(Seq<char>, Seq<char>), Seq<char>>((positionals[1], dir))),
        positionals.len() > 1 && flag_value(flags, "store"@) is None ==> source_of(
            flags,
            positionals,
        ) == Err::<(Seq<char>, Seq<char>), Seq<char>>("transcript requires --store DIR"@),
        positionals.len() <= 1 ==> source_of(flags, positionals) == Err::<
            (Seq<char>, Seq<char>),
            Seq<char>,
        >("transcript requires a session id"@),
{
}

/// A profile that begins with a brace is read as it is given, any other from the
/// file that it names; what is no JSON is reported with the reason.
pub proof fn law_profile_is_read_inline_or_from_its_file(
    source: Seq<char>,
    content: Seq<char>,
    message: Seq<char>,
)
    ensures
        ({
            let inline = text::trim(source).len() > 0 && text::trim(source)[0] == '{';
            let file = json::json_of_text(content);
            &&& inline ==> match json::json_of_text(text::trim(source)) {
                Ok(v) => profile_of(source, Ok(content)) == Ok::<JsonView, Seq<char>>(v)
                    && profile_of(source, Err(message)) == Ok::<JsonView, Seq<char>>(v),
                Err(m) => profile_of(source, Ok(content)) == Err::<JsonView, Seq<char>>(
                    "bad profile JSON: "@ + m,
                ),
            }
            &&& !inline ==> match file {
                Ok(v) => profile_of(source, Ok(content)) == Ok::<JsonView, Seq<char>>(v),
                Err(m) => profile_of(source, Ok(content)) == Err::<JsonView, Seq<char>>(
                    "bad profile JSON in "@ + source + ": "@ + m,
                ),
            }
            &&& !inline ==> profile_of(source, Err(message)) == Err::<JsonView, Seq<char>>(
                "cannot read "@ + source + ": "@ + message,
            )
        }),
{
}

} // verus!
