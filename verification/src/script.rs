//! The script interpreter.
//!
//! A script is a sequence of text lines.  Blank lines and comment lines
//! (`#` or `//`) are skipped; every other line is split on whitespace into
//! tokens and dispatched on its first token, producing one output line and
//! possibly changing the player stats, the console variables, or an actor.
//! A failing command reports its error in the output and execution goes on
//! with the next line; `quit` stops the script at once and asks the host
//! process to terminate.  `savecvars` asks the host to persist the
//! registry; the write itself is the host's concern.

use vstd::prelude::*;
use crate::cvars::{
    CVarRegistry,
    CVarValue,
    model_lookup,
    model_set,
    msg_not_found,
    msg_type_mismatch,
};
use crate::fixed::{
    clamp_i64,
    spec_parse_i32,
    spec_parse_fixed,
    spec_fmt_int,
    spec_fmt_fixed,
    spec_fmt_nat,
    parse_i32,
    parse_fixed,
    fmt_int,
    fmt_fixed,
    fmt_nat,
    add_sat,
    min_fixed,
};
use crate::stats::{PlayerStats, Actor};
use crate::text::{
    spec_lines,
    spec_trim,
    spec_tokens,
    spec_join,
    split_lines,
    trim,
    tokenize,
    join_tokens,
    str_eq,
};

verus! {

/// Stamina additions are clamped to this many micro-units (100 points).
pub const STAMINA_MAX: i64 = 100000000;

/// Damage that one `do_damage` command applies, in micro-units (10
/// points).
pub const DO_DAMAGE_AMOUNT: i64 = 10000000;

/// The views of a token list.
pub open spec fn token_views(ts: Seq<String>) -> Seq<Seq<char>> {
    ts.map_values(|t: String| t@)
}

/// The mathematical state a script acts on.
#[verifier::ext_equal]
pub ghost struct ScriptState {
    pub health: int,
    pub stamina: int,
    pub gold: int,
    pub cvars: Seq<(Seq<char>, CVarValue)>,
    pub actor_health: Option<int>,
}

/// What running a script yields: its output lines, the final state,
/// whether the host should terminate, and whether the host should persist
/// the console variables.
#[verifier::ext_equal]
pub ghost struct ScriptResult {
    pub outputs: Seq<Seq<char>>,
    pub state: ScriptState,
    pub quit: bool,
    pub save: bool,
}

/// The state carried by concrete stats, registry entries and an optional
/// actor.
pub open spec fn state_of(
    stats: PlayerStats,
    cvars: Seq<(Seq<char>, CVarValue)>,
    actor: Option<Actor>,
) -> ScriptState {
    ScriptState {
        health: stats.health as int,
        stamina: stats.stamina as int,
        gold: stats.gold as int,
        cvars,
        actor_health: match actor {
            Some(a) => Some(a.health as int),
            None => None,
        },
    }
}

/// Whether a line is skipped without output: blank, or a comment.
pub open spec fn spec_skippable(line: Seq<char>) -> bool {
    let t = spec_trim(line);
    t.len() == 0 || t[0] == '#' || (t.len() >= 2 && t[0] == '/' && t[1] == '/')
}

// ---------------------------------------------------------------------------
// One command, in the model
// ---------------------------------------------------------------------------

/// `add_gold <amount>`: adds a (possibly negative) integer amount of gold,
/// saturating at the machine range.
pub open spec fn step_add_gold(tokens: Seq<Seq<char>>, gold: int) -> (Seq<char>, int) {
    if tokens.len() < 2 {
        ("usage: add_gold <amount>"@, gold)
    } else {
        match spec_parse_i32(tokens[1]) {
            None => ("Invalid gold amount: "@ + tokens[1], gold),
            Some(a) => {
                let g = clamp_i64(gold + a);
                ("Added "@ + spec_fmt_int(a) + " gold, new value: "@ + spec_fmt_int(g), g)
            },
        }
    }
}

/// Stamina never rises above 100 points.
pub open spec fn stamina_clamp(v: int) -> int {
    if v <= STAMINA_MAX {
        v
    } else {
        STAMINA_MAX as int
    }
}

/// `add_stamina <amount>`: adds a decimal amount of stamina, clamped at
/// 100 points (and saturating at the machine range).
pub open spec fn step_add_stamina(tokens: Seq<Seq<char>>, stamina: int) -> (Seq<char>, int) {
    if tokens.len() < 2 {
        ("usage: add_stamina <amount>"@, stamina)
    } else {
        match spec_parse_fixed(tokens[1]) {
            None => ("Invalid stamina amount: "@ + tokens[1], stamina),
            Some(a) => {
                let ns = stamina_clamp(clamp_i64(stamina + a));
                (
                    "Added "@ + spec_fmt_fixed(a) + " stamina, new value: "@ + spec_fmt_fixed(ns),
                    ns,
                )
            },
        }
    }
}

/// `setvar <variable> <value>`: parses the value as a decimal number and
/// stores it; reports the registry's error when the variable is absent or
/// not numeric.
pub open spec fn step_setvar(
    tokens: Seq<Seq<char>>,
    cv: Seq<(Seq<char>, CVarValue)>,
) -> (Seq<char>, Seq<(Seq<char>, CVarValue)>) {
    if tokens.len() < 3 {
        ("usage: setvar <variable> <value>"@, cv)
    } else {
        match spec_parse_fixed(tokens[2]) {
            None => ("Invalid value: "@ + tokens[2], cv),
            Some(v) => match model_lookup(cv, tokens[1]) {
                None => (msg_not_found(tokens[1]), cv),
                Some(prev) => if prev is Float {
                    (
                        tokens[1] + " = "@ + spec_fmt_fixed(v),
                        model_set(cv, tokens[1], CVarValue::Float(v as i64)),
                    )
                } else {
                    (msg_type_mismatch(tokens[1]), cv)
                },
            },
        }
    }
}

/// `getvar <variable>`: the value in its default textual form, or a
/// not-found report.
pub open spec fn step_getvar(tokens: Seq<Seq<char>>, cv: Seq<(Seq<char>, CVarValue)>) -> Seq<
    char,
> {
    if tokens.len() < 2 {
        "usage: getvar <variable>"@
    } else {
        match model_lookup(cv, tokens[1]) {
            Some(v) => v.spec_format(),
            None => msg_not_found(tokens[1]),
        }
    }
}

/// The per-variable lines of a `listvars` report.
pub open spec fn listvars_body(m: Seq<(Seq<char>, CVarValue)>) -> Seq<char>
    decreases m.len(),
{
    if m.len() == 0 {
        Seq::empty()
    } else {
        listvars_body(m.drop_last()) + "\n  "@ + m.last().0 + " = "@ + m.last().1.spec_format()
    }
}

/// `listvars`: a count followed by one line per variable, or a note that
/// none are defined.
pub open spec fn step_listvars(cv: Seq<(Seq<char>, CVarValue)>) -> Seq<char> {
    if cv.len() == 0 {
        "No variables defined"@
    } else {
        spec_fmt_nat(cv.len() as int) + " variables:"@ + listvars_body(cv)
    }
}

/// `do_damage`: damages the actor the script runs against, if any.
pub open spec fn step_do_damage(actor_health: Option<int>) -> (Seq<char>, Option<int>) {
    match actor_health {
        None => ("do_damage can only be used on actors"@, None),
        Some(h) => ("Applied 10 damage"@, Some(clamp_i64(h - DO_DAMAGE_AMOUNT))),
    }
}

/// One non-skipped, non-`quit` line: its output, the next state, and
/// whether it asked for the console variables to be persisted.
pub open spec fn step_command(tokens: Seq<Seq<char>>, st: ScriptState) -> (
    Seq<char>,
    ScriptState,
    bool,
)
    recommends
        tokens.len() > 0,
{
    let cmd = tokens[0];
    if cmd == "setvar"@ {
        let r = step_setvar(tokens, st.cvars);
        (r.0, ScriptState { cvars: r.1, ..st }, false)
    } else if cmd == "getvar"@ {
        (step_getvar(tokens, st.cvars), st, false)
    } else if cmd == "listvars"@ {
        (step_listvars(st.cvars), st, false)
    } else if cmd == "savecvars"@ {
        ("Saving cvars"@, st, true)
    } else if cmd == "add_gold"@ {
        let r = step_add_gold(tokens, st.gold);
        (r.0, ScriptState { gold: r.1, ..st }, false)
    } else if cmd == "add_stamina"@ {
        let r = step_add_stamina(tokens, st.stamina);
        (r.0, ScriptState { stamina: r.1, ..st }, false)
    } else if cmd == "do_damage"@ {
        let r = step_do_damage(st.actor_health);
        (r.0, ScriptState { actor_health: r.1, ..st }, false)
    } else {
        ("Unknown command: "@ + spec_join(tokens), st, false)
    }
}

// ---------------------------------------------------------------------------
// A whole script, in the model
// ---------------------------------------------------------------------------

/// Runs the remaining lines against a state.  Skippable lines produce
/// nothing; `quit` stops at once without an output line of its own; every
/// other line appends one output and may change the state.
pub open spec fn run_lines(lines: Seq<Seq<char>>, st: ScriptState) -> ScriptResult
    decreases lines.len(),
{
    if lines.len() == 0 {
        ScriptResult { outputs: Seq::empty(), state: st, quit: false, save: false }
    } else {
        let tokens = spec_tokens(spec_trim(lines[0]));
        if spec_skippable(lines[0]) || tokens.len() == 0 {
            run_lines(lines.drop_first(), st)
        } else if tokens[0] == "quit"@ {
            ScriptResult { outputs: Seq::empty(), state: st, quit: true, save: false }
        } else {
            let step = step_command(tokens, st);
            let rest = run_lines(lines.drop_first(), step.1);
            ScriptResult {
                outputs: seq![step.0] + rest.outputs,
                state: rest.state,
                quit: rest.quit,
                save: step.2 || rest.save,
            }
        }
    }
}

/// Runs a whole script text against a state.
pub open spec fn run_script(s: Seq<char>, st: ScriptState) -> ScriptResult {
    run_lines(spec_lines(s), st)
}

// ---------------------------------------------------------------------------
// Command handlers
// ---------------------------------------------------------------------------

/// Handles `add_gold`.
pub fn cmd_add_gold(
    tokens: &Vec<String>,
    stats: &mut PlayerStats,
    _cvars: &mut CVarRegistry,
) -> (out: String)
    ensures
        ({
            let r = step_add_gold(token_views(tokens@), old(stats).gold as int);
            &&& out@ == r.0
            &&& final(stats).gold == r.1
        }),
        final(stats).health == old(stats).health,
        final(stats).stamina == old(stats).stamina,
        *final(_cvars) == *old(_cvars),
{
    if tokens.len() < 2 {
        return String::from_str("usage: add_gold <amount>");
    }
    match parse_i32(tokens[1].as_str()) {
        None => {
            let mut out = String::from_str("Invalid gold amount: ");
            out.append(tokens[1].as_str());
            out
        },
        Some(a) => {
            let g = add_sat(stats.gold, a as i64);
            stats.gold = g;
            let mut out = String::from_str("Added ");
            let amount = fmt_int(a as i64);
            out.append(amount.as_str());
            out.append(" gold, new value: ");
            let newval = fmt_int(g);
            out.append(newval.as_str());
            out
        },
    }
}

/// Handles `add_stamina`.
pub fn cmd_add_stamina(
    tokens: &Vec<String>,
    stats: &mut PlayerStats,
    _cvars: &mut CVarRegistry,
) -> (out: String)
    ensures
        ({
            let r = step_add_stamina(token_views(tokens@), old(stats).stamina as int);
            &&& out@ == r.0
            &&& final(stats).stamina == r.1
        }),
        final(stats).health == old(stats).health,
        final(stats).gold == old(stats).gold,
        *final(_cvars) == *old(_cvars),
{
    if tokens.len() < 2 {
        return String::from_str("usage: add_stamina <amount>");
    }
    match parse_fixed(tokens[1].as_str()) {
        None => {
            let mut out = String::from_str("Invalid stamina amount: ");
            out.append(tokens[1].as_str());
            out
        },
        Some(a) => {
            let raised = add_sat(stats.stamina, a);
            let ns = min_fixed(raised, STAMINA_MAX);
            stats.stamina = ns;
            let mut out = String::from_str("Added ");
            let amount = fmt_fixed(a);
            out.append(amount.as_str());
            out.append(" stamina, new value: ");
            let newval = fmt_fixed(ns);
            out.append(newval.as_str());
            out
        },
    }
}

/// Handles `setvar`.
pub fn cmd_setvar(
    tokens: &Vec<String>,
    _stats: &mut PlayerStats,
    cvars: &mut CVarRegistry,
) -> (out: String)
    ensures
        ({
            let r = step_setvar(token_views(tokens@), old(cvars).model());
            &&& out@ == r.0
            &&& final(cvars).model() == r.1
        }),
        *final(_stats) == *old(_stats),
{
    if tokens.len() < 3 {
        return String::from_str("usage: setvar <variable> <value>");
    }
    match parse_fixed(tokens[2].as_str()) {
        None => {
            let mut out = String::from_str("Invalid value: ");
            out.append(tokens[2].as_str());
            out
        },
        Some(v) => {
            match cvars.set(tokens[1].as_str(), CVarValue::Float(v)) {
                Ok(_) => {
                    let mut out = String::from_str(tokens[1].as_str());
                    out.append(" = ");
                    let shown = fmt_fixed(v);
                    out.append(shown.as_str());
                    out
                },
                Err(e) => e,
            }
        },
    }
}

/// Handles `getvar`.
pub fn cmd_getvar(
    tokens: &Vec<String>,
    _stats: &mut PlayerStats,
    cvars: &mut CVarRegistry,
) -> (out: String)
    ensures
        out@ == step_getvar(token_views(tokens@), old(cvars).model()),
        *final(cvars) == *old(cvars),
        *final(_stats) == *old(_stats),
{
    if tokens.len() < 2 {
        return String::from_str("usage: getvar <variable>");
    }
    match cvars.get(tokens[1].as_str()) {
        Some(v) => v.format(),
        None => {
            let mut out = String::from_str("Variable not found: ");
            out.append(tokens[1].as_str());
            out
        },
    }
}

/// Handles `listvars`.
pub fn cmd_listvars(
    _tokens: &Vec<String>,
    _stats: &mut PlayerStats,
    cvars: &mut CVarRegistry,
) -> (out: String)
    ensures
        out@ == step_listvars(old(cvars).model()),
        *final(cvars) == *old(cvars),
        *final(_stats) == *old(_stats),
{
    let n = cvars.len();
    if n == 0 {
        return String::from_str("No variables defined");
    }
    let vars = cvars.list();
    let ghost m = cvars.model();
    let mut out = fmt_nat(n as u64);
    out.append(" variables:");
    proof {
        assert(m.take(0) =~= Seq::<(Seq<char>, CVarValue)>::empty());
    }
    let mut i: usize = 0;
    while i < vars.len()
        invariant
            0 <= i <= vars@.len(),
            vars@.len() == m.len(),
            forall|j: int|
                0 <= j < m.len() ==> (#[trigger] vars@[j]).0@ == m[j].0 && vars@[j].1 == m[j].1,
            out@ == spec_fmt_nat(m.len() as int) + " variables:"@ + listvars_body(
                m.take(i as int),
            ),
        decreases vars@.len() - i,
    {
        out.append("\n  ");
        out.append(vars[i].0.as_str());
        out.append(" = ");
        let shown = vars[i].1.format();
        out.append(shown.as_str());
        proof {
            let taken = m.take(i + 1 as int);
            assert(taken.drop_last() =~= m.take(i as int));
            assert(taken.last() == m[i as int]);
        }
        i += 1;
    }
    proof {
        assert(m.take(m.len() as int) =~= m);
    }
    out
}

/// Handles `savecvars`: the interpreter only records the request; the host
/// performs the write and reports its own failures.
pub fn cmd_savecvars(
    _tokens: &Vec<String>,
    _stats: &mut PlayerStats,
    _cvars: &mut CVarRegistry,
) -> (out: String)
    ensures
        out@ == "Saving cvars"@,
        *final(_cvars) == *old(_cvars),
        *final(_stats) == *old(_stats),
{
    String::from_str("Saving cvars")
}

/// Handles `do_damage` against a present actor.
pub fn cmd_do_damage(_tokens: &Vec<String>, actor: &mut Actor) -> (out: String)
    ensures
        ({
            let r = step_do_damage(Some(old(actor).health as int));
            &&& out@ == r.0
            &&& Some(final(actor).health as int) == r.1
        }),
        final(actor).actor_type == old(actor).actor_type,
{
    let h = add_sat(actor.health, -DO_DAMAGE_AMOUNT);
    actor.health = h;
    String::from_str("Applied 10 damage")
}

// ---------------------------------------------------------------------------
// The interpreter
// ---------------------------------------------------------------------------

/// What running a script produced for the host: the output lines, whether
/// the script asked the host process to terminate, and whether it asked
/// for the console variables to be persisted.
pub struct ScriptOutcome {
    pub output: Vec<String>,
    pub quit: bool,
    pub save_requested: bool,
}

/// Glues an accumulated prefix onto the result of the remaining lines.
pub open spec fn and_then(outs: Seq<Seq<char>>, save: bool, rest: ScriptResult) -> ScriptResult {
    ScriptResult {
        outputs: outs + rest.outputs,
        state: rest.state,
        quit: rest.quit,
        save: save || rest.save,
    }
}

/// Runs a script against the player stats, the console variables, and an
/// optional actor, collecting one output line per executed command.
#[verifier::rlimit(80)]
pub fn process_script_with_actor(
    script: &str,
    stats: &mut PlayerStats,
    cvars: &mut CVarRegistry,
    actor: &mut Option<Actor>,
) -> (r: ScriptOutcome)
    ensures
        ({
            let res = run_script(
                script@,
                state_of(*old(stats), old(cvars).model(), *old(actor)),
            );
            &&& r.output@.map_values(|t: String| t@) == res.outputs
            &&& final(stats).health == res.state.health
            &&& final(stats).stamina == res.state.stamina
            &&& final(stats).gold == res.state.gold
            &&& final(cvars).model() == res.state.cvars
            &&& match *final(actor) {
                Some(a) => (*old(actor)) matches Some(oa) && res.state.actor_health == Some(
                    a.health as int,
                ) && a.actor_type == oa.actor_type,
                None => (*old(actor)) is None && res.state.actor_health is None,
            }
            &&& r.quit == res.quit
            &&& r.save_requested == res.save
        }),
{
    let ghost st0 = state_of(*stats, cvars.model(), *actor);
    let lines = split_lines(script);
    let ghost lines_v = lines@.map_values(|t: String| t@);
    proof {
        assert(lines_v =~= spec_lines(script@));
        assert(lines_v.skip(0) =~= lines_v);
    }
    let mut output: Vec<String> = Vec::new();
    let mut save = false;
    let mut i: usize = 0;
    proof {
        assert(output@.map_values(|t: String| t@) =~= Seq::<Seq<char>>::empty());
        assert(run_lines(lines_v, st0) =~~= and_then(
            output@.map_values(|t: String| t@),
            save,
            run_lines(lines_v.skip(i as int), state_of(*stats, cvars.model(), *actor)),
        ));
    }
    while i < lines.len()
        invariant
            0 <= i <= lines@.len(),
            lines_v == lines@.map_values(|t: String| t@),
            lines_v == spec_lines(script@),
            st0 == state_of(*old(stats), old(cvars).model(), *old(actor)),
            lines_v.len() == lines@.len(),
            ((*actor) is Some) == ((*old(actor)) is Some),
            (*actor) matches Some(a) ==> (*old(actor)) matches Some(oa) && a.actor_type
                == oa.actor_type,
            run_lines(lines_v, st0) =~~= and_then(
                output@.map_values(|t: String| t@),
                save,
                run_lines(lines_v.skip(i as int), state_of(*stats, cvars.model(), *actor)),
            ),
        decreases lines@.len() - i,
    {
        let ghost cur = state_of(*stats, cvars.model(), *actor);
        let ghost rest = lines_v.skip(i as int);
        proof {
            assert(rest[0] == lines_v[i as int]);
            assert(rest.drop_first() =~= lines_v.skip(i + 1 as int));
        }
        let trimmed = trim(lines[i].as_str());
        let tlen = trimmed.unicode_len();
        let mut skip_line = tlen == 0;
        if !skip_line {
            let c0 = trimmed.get_char(0);
            if c0 == '#' {
                skip_line = true;
            } else if c0 == '/' && tlen >= 2 {
                if trimmed.get_char(1) == '/' {
                    skip_line = true;
                }
            }
        }
        proof {
            assert(trimmed@ == spec_trim(lines_v[i as int]));
            assert(skip_line == spec_skippable(lines_v[i as int]));
        }
        if skip_line {
            i += 1;
            continue;
        }
        let tokens = tokenize(trimmed);
        let ghost tv = spec_tokens(spec_trim(lines_v[i as int]));
        proof {
            assert(token_views(tokens@) =~= tv);
        }
        if tokens.len() == 0 {
            i += 1;
            continue;
        }
        if str_eq(tokens[0].as_str(), "quit") {
            proof {
                assert(run_lines(rest, cur) =~~= ScriptResult {
                    outputs: Seq::empty(),
                    state: cur,
                    quit: true,
                    save: false,
                });
                let res = run_script(script@, st0);
                assert(res == run_lines(lines_v, st0));
                assert(res.outputs =~= output@.map_values(|t: String| t@));
                assert(res.outputs == output@.map_values(|t: String| t@));
                assert(res.state =~~= cur);
                assert(res.quit == true);
                assert(res.save == save);
            }
            return ScriptOutcome { output, quit: true, save_requested: save };
        }
        let mut save_here = false;
        let out;
        if str_eq(tokens[0].as_str(), "setvar") {
            out = cmd_setvar(&tokens, stats, cvars);
        } else if str_eq(tokens[0].as_str(), "getvar") {
            out = cmd_getvar(&tokens, stats, cvars);
        } else if str_eq(tokens[0].as_str(), "listvars") {
            out = cmd_listvars(&tokens, stats, cvars);
        } else if str_eq(tokens[0].as_str(), "savecvars") {
            out = cmd_savecvars(&tokens, stats, cvars);
            save_here = true;
        } else if str_eq(tokens[0].as_str(), "add_gold") {
            out = cmd_add_gold(&tokens, stats, cvars);
        } else if str_eq(tokens[0].as_str(), "add_stamina") {
            out = cmd_add_stamina(&tokens, stats, cvars);
        } else if str_eq(tokens[0].as_str(), "do_damage") {
            let held = actor.take();
            match held {
                Some(mut a) => {
                    out = cmd_do_damage(&tokens, &mut a);
                    *actor = Some(a);
                },
                None => {
                    *actor = None;
                    out = String::from_str("do_damage can only be used on actors");
                },
            }
        } else {
            let mut echo = String::from_str("Unknown command: ");
            let joined = join_tokens(&tokens);
            echo.append(joined.as_str());
            out = echo;
        }
        let ghost stepped = step_command(tv, cur);
        proof {
            assert(out@ == stepped.0);
            assert(state_of(*stats, cvars.model(), *actor) =~~= stepped.1);
            assert(save_here == stepped.2);
        }
        let ghost pre_outs = output@.map_values(|t: String| t@);
        output.push(out);
        save = save || save_here;
        proof {
            assert(output@.map_values(|t: String| t@) =~= pre_outs.push(stepped.0));
            assert(pre_outs.push(stepped.0) =~= pre_outs + seq![stepped.0]);
            let after = run_lines(lines_v.skip(i + 1 as int), stepped.1);
            assert(run_lines(rest, cur) =~~= ScriptResult {
                outputs: seq![stepped.0] + after.outputs,
                state: after.state,
                quit: after.quit,
                save: stepped.2 || after.save,
            });
            assert((pre_outs + seq![stepped.0]) + after.outputs =~= pre_outs + (seq![stepped.0]
                + after.outputs));
        }
        i += 1;
    }
    proof {
        assert(lines_v.skip(lines_v.len() as int).len() == 0);
        assert(run_lines(lines_v, st0).outputs =~= output@.map_values(|t: String| t@));
    }
    ScriptOutcome { output, quit: false, save_requested: save }
}

// ---------------------------------------------------------------------------
// Laws
// ---------------------------------------------------------------------------

/// An unknown command changes nothing: it only reports itself, rejoined
/// with single spaces.
pub proof fn lemma_unknown_command_preserves_state(tokens: Seq<Seq<char>>, st: ScriptState)
    requires
        tokens.len() > 0,
        tokens[0] != "setvar"@,
        tokens[0] != "getvar"@,
        tokens[0] != "listvars"@,
        tokens[0] != "savecvars"@,
        tokens[0] != "add_gold"@,
        tokens[0] != "add_stamina"@,
        tokens[0] != "do_damage"@,
    ensures
        step_command(tokens, st).0 == "Unknown command: "@ + spec_join(tokens),
        step_command(tokens, st).1 == st,
        !step_command(tokens, st).2,
{
}

/// Setting a numeric variable and then reading it back yields exactly the
/// value that was stored, formatted the same way the set echoed it: the
/// set echoes `name = <v>` and the get answers `<v>`, with the same
/// rendering of `v` in both.
pub proof fn lemma_setvar_getvar_round_trip(
    name: Seq<char>,
    value: Seq<char>,
    v: int,
    st: ScriptState,
)
    requires
        spec_parse_fixed(value) == Some(v),
        model_lookup(st.cvars, name) matches Some(prev) && prev is Float,
    ensures
        ({
            let stepped = step_command(seq!["setvar"@, name, value], st);
            &&& stepped.0 == name + " = "@ + spec_fmt_fixed(v)
            &&& step_getvar(seq!["getvar"@, name], stepped.1.cvars) == spec_fmt_fixed(v)
            &&& forall|other: Seq<char>|
                other != name ==> model_lookup(#[trigger] stepped.1.cvars, other)
                    == model_lookup(st.cvars, other)
        }),
{
    let set_tokens = seq!["setvar"@, name, value];
    let get_tokens = seq!["getvar"@, name];
    assert(set_tokens[0] == "setvar"@ && set_tokens[1] == name && set_tokens[2] == value);
    assert(get_tokens[0] == "getvar"@ && get_tokens[1] == name);
    crate::fixed::lemma_parse_fixed_in_range(value);
    crate::cvars::lemma_contains_lookup(st.cvars, name);
    crate::cvars::lemma_lookup_after_set(st.cvars, name, CVarValue::Float(v as i64));
    let stepped = step_command(set_tokens, st);
    assert forall|other: Seq<char>| other != name implies model_lookup(
        #[trigger] stepped.1.cvars,
        other,
    ) == model_lookup(st.cvars, other) by {
        crate::cvars::lemma_lookup_other_name(st.cvars, other, name, CVarValue::Float(v as i64));
    }
}

/// Runs a script with no actor in scope.
pub fn process_script(script: &str, stats: &mut PlayerStats, cvars: &mut CVarRegistry) -> (r:
    ScriptOutcome)
    ensures
        ({
            let res = run_script(
                script@,
                state_of(*old(stats), old(cvars).model(), None),
            );
            &&& r.output@.map_values(|t: String| t@) == res.outputs
            &&& final(stats).health == res.state.health
            &&& final(stats).stamina == res.state.stamina
            &&& final(stats).gold == res.state.gold
            &&& final(cvars).model() == res.state.cvars
            &&& r.quit == res.quit
            &&& r.save_requested == res.save
        }),
{
    let mut no_actor: Option<Actor> = None;
    process_script_with_actor(script, stats, cvars, &mut no_actor)
}

} // verus!
