//! How arguments on the command line are read.
use vstd::prelude::*;

use crate::flags::{
    spec_arg, spec_bool, spec_bool_value, spec_find_flag, spec_parse_from, spec_slice, spec_string,
    ArgView, FlagSpec, FlagType, FlagsErrorView, GivenView, SettingView,
};
use crate::options::{no_options, spec_resolve, Choice, OptionsView};

verus! {

/// A name that a flag can have: not empty, without an equals sign, and not
/// beginning with a dash.
pub open spec fn is_flag_name(s: Seq<char>) -> bool {
    &&& s.len() > 0
    &&& s[0] != '-'
    &&& forall|i: int| 0 <= i < s.len() ==> #[trigger] s[i] != '='
}

/// Flag `k` is the first called `name`.
pub open spec fn first_called(specs: Seq<FlagSpec>, name: Seq<char>, k: int) -> bool {
    &&& 0 <= k < specs.len()
    &&& specs[k].name@ == name
    &&& forall|i: int| 0 <= i < k ==> (#[trigger] specs[i]).name@ != name
}

/// No flag is called `name`.
pub open spec fn none_called(specs: Seq<FlagSpec>, name: Seq<char>) -> bool {
    forall|i: int| 0 <= i < specs.len() ==> (#[trigger] specs[i]).name@ != name
}

proof fn lemma_find(specs: Seq<FlagSpec>, name: Seq<char>, k: int)
    requires
        0 <= k <= specs.len(),
        k < specs.len() ==> specs[k].name@ == name,
        forall|i: int| 0 <= i < k ==> (#[trigger] specs[i]).name@ != name,
    ensures
        spec_find_flag(specs, name) == k,
    decreases k,
{
    if k > 0 {
        let t = specs.drop_first();
        assert(specs[0].name@ != name);
        assert forall|i: int| 0 <= i < k - 1 implies (#[trigger] t[i]).name@ != name by {
            assert(t[i] == specs[i + 1]);
        }
        lemma_find(t, name, k - 1);
    }
}

/// A flag is a dash or two and its name. What stands behind the first equals
/// sign is its value.
pub proof fn law_flag_forms(name: Seq<char>, value: Seq<char>)
    requires
        is_flag_name(name),
    ensures
        spec_arg(seq!['-'] + name) == ArgView::Flag(name, None),
        spec_arg(seq!['-', '-'] + name) == ArgView::Flag(name, None),
        spec_arg(seq!['-'] + name + seq!['='] + value) == ArgView::Flag(name, Some(value)),
        spec_arg(seq!['-', '-'] + name + seq!['='] + value) == ArgView::Flag(name, Some(value)),
{
    let n = name.len() as int;
    let v = name + seq!['='] + value;
    crate::seqs::lemma_first_index(name, '=', n);
    assert forall|j: int| 0 <= j < n implies v[j] != '=' by {
        assert(v[j] == name[j]);
    }
    assert(v[n] == '=');
    crate::seqs::lemma_first_index(v, '=', n);
    assert(v.take(n) =~= name);
    assert(v.skip(n + 1) =~= value);
    assert(name[0] != '=');
    assert((seq!['-'] + name).skip(1) =~= name);
    assert((seq!['-', '-'] + name).skip(2) =~= name);
    assert((seq!['-'] + name + seq!['='] + value).skip(1) =~= v);
    assert((seq!['-', '-'] + name + seq!['='] + value).skip(2) =~= v);
    assert(v[0] == name[0]);
}

/// An argument without a dash in front, a dash alone and two dashes alone end
/// the flags. Dashes before anything that is no name are a mistake.
pub proof fn law_no_flags(s: Seq<char>)
    ensures
        s.len() == 0 || s[0] != '-' ==> spec_arg(s) is Stop,
        spec_arg(seq!['-']) is Stop,
        spec_arg(seq!['-', '-']) is Stop,
        spec_arg(seq!['-', '-', '-'] + s) is Bad,
        spec_arg(seq!['-', '='] + s) is Bad,
        spec_arg(seq!['-', '-', '='] + s) is Bad,
{
    let a = seq!['-', '-', '-'] + s;
    let b = seq!['-', '='] + s;
    let c = seq!['-', '-', '='] + s;
    assert(a.skip(2)[0] == '-');
    assert(b.skip(1)[0] == '=');
    assert(c.skip(2)[0] == '=');
}

/// A flag of truth alone is set; behind an equals sign it takes a truth value.
/// It never takes the next argument.
pub proof fn law_truth_flag(
    name: Seq<char>,
    value: Seq<char>,
    rest: Seq<Seq<char>>,
    specs: Seq<FlagSpec>,
    seen: Seq<SettingView>,
    k: int,
)
    requires
        is_flag_name(name),
        first_called(specs, name, k),
        specs[k].ty == FlagType::Bool,
    ensures
        spec_parse_from(seq![seq!['-'] + name] + rest, specs, seen) == spec_parse_from(
            rest,
            specs,
            seen.push(SettingView { name, value: GivenView::Bool(true) }),
        ),
        spec_bool_value(value) is Some ==> spec_parse_from(
            seq![seq!['-'] + name + seq!['='] + value] + rest,
            specs,
            seen,
        ) == spec_parse_from(
            rest,
            specs,
            seen.push(SettingView { name, value: GivenView::Bool(spec_bool_value(value)->0) }),
        ),
        spec_bool_value(value) is None ==> spec_parse_from(
            seq![seq!['-'] + name + seq!['='] + value] + rest,
            specs,
            seen,
        ) is Err,
{
    law_flag_forms(name, value);
    lemma_find(specs, name, k);
    let a = seq![seq!['-'] + name] + rest;
    let b = seq![seq!['-'] + name + seq!['='] + value] + rest;
    assert(a.skip(1) =~= rest);
    assert(b.skip(1) =~= rest);
}

/// A flag that takes a text takes the next argument, whatever that looks like,
/// and fails where there is none.
pub proof fn law_text_flag(
    name: Seq<char>,
    value: Seq<char>,
    rest: Seq<Seq<char>>,
    specs: Seq<FlagSpec>,
    seen: Seq<SettingView>,
    k: int,
)
    requires
        is_flag_name(name),
        first_called(specs, name, k),
        specs[k].ty != FlagType::Bool,
    ensures
        spec_parse_from(seq![seq!['-'] + name, value] + rest, specs, seen) == spec_parse_from(
            rest,
            specs,
            seen.push(
                SettingView {
                    name,
                    value: if specs[k].ty == FlagType::Text {
                        GivenView::Text(value)
                    } else {
                        GivenView::Item(value)
                    },
                },
            ),
        ),
        spec_parse_from(seq![seq!['-'] + name], specs, seen) == Err::<
            Seq<SettingView>,
            FlagsErrorView,
        >(FlagsErrorView::Message("flag needs an argument: -"@ + name)),
{
    law_flag_forms(name, value);
    lemma_find(specs, name, k);
    assert((seq![seq!['-'] + name, value] + rest).skip(2) =~= rest);
}

/// A flag that there is not is refused; asked for help, help is given.
pub proof fn law_unknown_flag(
    name: Seq<char>,
    rest: Seq<Seq<char>>,
    specs: Seq<FlagSpec>,
    seen: Seq<SettingView>,
)
    requires
        is_flag_name(name),
        none_called(specs, name),
    ensures
        spec_parse_from(seq![seq!['-'] + name] + rest, specs, seen) == Err::<
            Seq<SettingView>,
            FlagsErrorView,
        >(
            if name == "help"@ || name == "h"@ {
                FlagsErrorView::Help
            } else {
                FlagsErrorView::Message("flag provided but not defined: -"@ + name)
            },
        ),
{
    law_flag_forms(name, Seq::empty());
    lemma_find(specs, name, specs.len() as int);
}

/// What was given last for a flag counts, and what was given for others does
/// not; where nothing was given, it is unset or empty.
pub proof fn law_what_was_given(seen: Seq<SettingView>, s: SettingView, name: Seq<char>)
    ensures
        s.name != name ==> {
            &&& spec_bool(seen.push(s), name) == spec_bool(seen, name)
            &&& spec_string(seen.push(s), name) == spec_string(seen, name)
            &&& spec_slice(seen.push(s), name) == spec_slice(seen, name)
        },
        s.name == name ==> {
            &&& s.value is Bool ==> spec_bool(seen.push(s), name) == s.value->Bool_0
            &&& s.value is Text ==> spec_string(seen.push(s), name) == s.value->Text_0
            &&& s.value is Item ==> spec_slice(seen.push(s), name) == spec_slice(seen, name).push(
                s.value->Item_0,
            )
        },
        !spec_bool(Seq::empty(), name),
        spec_string(Seq::empty(), name).len() == 0,
        spec_slice(Seq::empty(), name).len() == 0,
{
    assert(seen.push(s).drop_last() =~= seen);
}

/// The flags of the commands: which of them are set, take a text, or take
/// texts again and again.
pub proof fn law_flags_of_commands()
    ensures
        ({
            let f = crate::cli::spec_relay_flags();
            &&& f.len() == 2
            &&& f[0].name@ == "listen"@ && f[0].ty == FlagType::Text
            &&& f[1].name@ == "debug"@ && f[1].ty == FlagType::Bool
        }),
        ({
            let f = crate::cli::spec_pipe_flags();
            &&& f.len() == 4
            &&& f[0].name@ == "code"@ && f[0].ty == FlagType::Text
            &&& f[1].name@ == "relay"@ && f[1].ty == FlagType::Text
            &&& f[2].name@ == "debug"@ && f[2].ty == FlagType::Bool
            &&& f[3].name@ == "stats"@ && f[3].ty == FlagType::Bool
        }),
        ({
            let f = crate::cli::spec_exec_flags();
            &&& f.len() == 4
            &&& f[0].name@ == "code"@ && f[0].ty == FlagType::Text
            &&& f[1].name@ == "relay"@ && f[1].ty == FlagType::Text
            &&& f[2].name@ == "debug"@ && f[2].ty == FlagType::Bool
            &&& f[3].name@ == "cmd"@ && f[3].ty == FlagType::Text
        }),
        ({
            let f = crate::cli::spec_tunnel_flags();
            &&& f.len() == 8
            &&& f[0].name@ == "code"@ && f[0].ty == FlagType::Text
            &&& f[1].name@ == "relay"@ && f[1].ty == FlagType::Text
            &&& f[2].name@ == "debug"@ && f[2].ty == FlagType::Bool
            &&& f[3].name@ == "a"@ && f[3].ty == FlagType::Bool
            &&& f[4].name@ == "L"@ && f[4].ty == FlagType::Slice
            &&& f[5].name@ == "R"@ && f[5].ty == FlagType::Slice
            &&& f[6].name@ == "aL"@ && f[6].ty == FlagType::Slice
            &&& f[7].name@ == "aF"@ && f[7].ty == FlagType::Slice
        }),
{
}

/// The letters of a truth value.
pub open spec fn is_truth(s: Seq<char>, b: bool) -> bool {
    if b {
        s == seq!['1'] || s == seq!['t'] || s == seq!['T'] || s == seq!['t', 'r', 'u', 'e'] || s
            == seq!['T', 'R', 'U', 'E'] || s == seq!['T', 'r', 'u', 'e']
    } else {
        s == seq!['0'] || s == seq!['f'] || s == seq!['F'] || s == seq!['f', 'a', 'l', 's', 'e']
            || s == seq!['F', 'A', 'L', 'S', 'E'] || s == seq!['F', 'a', 'l', 's', 'e']
    }
}

/// A truth value is read from its spellings and from no other text.
pub proof fn law_truth_values(s: Seq<char>)
    ensures
        spec_bool_value(s) == Some(true) <==> is_truth(s, true),
        spec_bool_value(s) == Some(false) <==> is_truth(s, false),
{
    reveal_strlit("1");
    reveal_strlit("t");
    reveal_strlit("T");
    reveal_strlit("true");
    reveal_strlit("TRUE");
    reveal_strlit("True");
    reveal_strlit("0");
    reveal_strlit("f");
    reveal_strlit("F");
    reveal_strlit("false");
    reveal_strlit("FALSE");
    reveal_strlit("False");
    assert("1"@ =~= seq!['1']);
    assert("t"@ =~= seq!['t']);
    assert("T"@ =~= seq!['T']);
    assert("true"@ =~= seq!['t', 'r', 'u', 'e']);
    assert("TRUE"@ =~= seq!['T', 'R', 'U', 'E']);
    assert("True"@ =~= seq!['T', 'r', 'u', 'e']);
    assert("0"@ =~= seq!['0']);
    assert("f"@ =~= seq!['f']);
    assert("F"@ =~= seq!['F']);
    assert("false"@ =~= seq!['f', 'a', 'l', 's', 'e']);
    assert("FALSE"@ =~= seq!['F', 'A', 'L', 'S', 'E']);
    assert("False"@ =~= seq!['F', 'a', 'l', 's', 'e']);
    if is_truth(s, false) {
        assert(s[0] == '0' || s[0] == 'f' || s[0] == 'F');
        assert("1"@[0] == '1' && "t"@[0] == 't' && "T"@[0] == 'T' && "true"@[0] == 't'
            && "TRUE"@[0] == 'T' && "True"@[0] == 'T');
    }
}

/// A setting of an option is the value that the option then has, and leaves
/// the others as they are; a tunnel or an entry is added behind those before
/// it.
pub proof fn law_setting_sets(opts: Seq<Choice>, c: Choice)
    ensures
        ({
            let o = spec_resolve(opts);
            let n = spec_resolve(opts.push(c));
            &&& n.code == if c is Code { c->Code_0@ } else { o.code }
            &&& n.relay == if c is Relay { c->Relay_0@ } else { o.relay }
            &&& n.punch_timeout == if c is PunchTimeout { c->PunchTimeout_0 } else { o.punch_timeout }
            &&& n.exchange_deadline == if c is ExchangeDeadline {
                c->ExchangeDeadline_0
            } else {
                o.exchange_deadline
            }
            &&& n.keep_alive_period == if c is KeepAlive {
                c->KeepAlive_0
            } else {
                o.keep_alive_period
            }
            &&& n.idle_timeout == if c is IdleTimeout { c->IdleTimeout_0 } else { o.idle_timeout }
            &&& n.handshake_timeout == if c is HandshakeTimeout {
                c->HandshakeTimeout_0
            } else {
                o.handshake_timeout
            }
            &&& n.max_streams == if c is MaxStreams { c->MaxStreams_0 } else { o.max_streams }
            &&& n.forward_max_streams == if c is ForwardMaxStreams {
                c->ForwardMaxStreams_0
            } else {
                o.forward_max_streams
            }
            &&& n.stream_idle_timeout == if c is StreamIdleTimeout {
                c->StreamIdleTimeout_0
            } else {
                o.stream_idle_timeout
            }
            &&& n.command == if c is Command { c->Command_0@ } else { o.command }
            &&& n.cmd_mode == if c is CmdMode { c->CmdMode_0 } else { o.cmd_mode }
            &&& n.allow_all == if c is AllowAll { c->AllowAll_0 } else { o.allow_all }
            &&& n.local_tunnels == if c is LocalTunnel {
                o.local_tunnels.push(c->LocalTunnel_0@)
            } else {
                o.local_tunnels
            }
            &&& n.remote_tunnels == if c is RemoteTunnel {
                o.remote_tunnels.push(c->RemoteTunnel_0@)
            } else {
                o.remote_tunnels
            }
            &&& n.allow_listen == if c is AllowListen {
                o.allow_listen.push(c->AllowListen_0@)
            } else {
                o.allow_listen
            }
            &&& n.allow_forward == if c is AllowForward {
                o.allow_forward.push(c->AllowForward_0@)
            } else {
                o.allow_forward
            }
        }),
        spec_resolve(Seq::empty()) == no_options(),
{
    assert(opts.push(c).drop_last() =~= opts);
}

/// Where nothing is set, nothing is allowed and nothing asked for.
pub proof fn law_nothing_set(o: OptionsView)
    requires
        o == no_options(),
    ensures
        o.code.len() == 0 && o.relay.len() == 0 && o.command.len() == 0,
        !o.allow_all && !o.cmd_mode,
        o.local_tunnels.len() == 0 && o.remote_tunnels.len() == 0,
        o.allow_listen.len() == 0 && o.allow_forward.len() == 0,
        o.max_streams == 0 && o.forward_max_streams == 0,
        o.punch_timeout.nanos == 0 && o.exchange_deadline.nanos == 0,
        o.keep_alive_period.nanos == 0 && o.idle_timeout.nanos == 0,
        o.handshake_timeout.nanos == 0 && o.stream_idle_timeout.nanos == 0,
{
}

} // verus!
