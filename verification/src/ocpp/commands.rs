//! The `:` commands of the OCPP views: their dispatch tables and parsers.

use vstd::prelude::*;

use crate::ocpp::client::str_views;
use crate::view::{
    command_rest, command_token, first_match, has_alias, parse_command, rest_arg,
    CommandDescriptor, CommandSpec,
};

verus! {

/// The text of an argument remainder, if there is one.
pub open spec fn arg_text(a: Option<&str>) -> Option<Seq<char>> {
    match a {
        Some(s) => Some(s@),
        None => None,
    }
}

/// The argument remainder of `input` as the command table hands it on: `None` when empty.
pub open spec fn arg_of(input: Seq<char>) -> Option<Seq<char>> {
    if command_rest(input).len() == 0 {
        None
    } else {
        Some(command_rest(input))
    }
}

/// The first entry of `table` that lists `token` among its aliases, if any.
pub open spec fn first_entry(table: Seq<Seq<Seq<char>>>, token: Seq<char>) -> Option<int>
    decreases table.len(),
{
    if table.len() == 0 {
        None
    } else {
        match first_entry(table.drop_last(), token) {
            Some(k) => Some(k),
            None => if table.last().contains(token) {
                Some(table.len() - 1)
            } else {
                None
            },
        }
    }
}

/// Whether the aliases of each entry of `specs` spell the entry of `table` at its position.
pub open spec fn aliases_match<F>(specs: Seq<CommandSpec<F>>, table: Seq<Seq<Seq<char>>>) -> bool {
    &&& specs.len() == table.len()
    &&& forall|i: int| 0 <= i < specs.len() ==> str_views(#[trigger] specs[i].aliases@) == table[i]
}

proof fn lemma_has_alias<F>(specs: Seq<CommandSpec<F>>, table: Seq<Seq<Seq<char>>>, i: int, token: Seq<char>)
    requires
        aliases_match(specs, table),
        0 <= i < specs.len(),
    ensures
        has_alias(specs[i].aliases@, token) == table[i].contains(token),
{
    let a = specs[i].aliases@;
    assert(str_views(a) == table[i]);
    if has_alias(a, token) {
        let k = choose|k: int| 0 <= k < a.len() && (#[trigger] a[k])@ == token;
        assert(table[i][k] == token);
    }
    if table[i].contains(token) {
        let k = choose|k: int| 0 <= k < table[i].len() && table[i][k] == token;
        assert(a[k]@ == token);
    }
}

proof fn lemma_first_entry(table: Seq<Seq<Seq<char>>>, token: Seq<char>, i: int)
    requires
        0 <= i < table.len(),
        table[i].contains(token),
        forall|k: int| 0 <= k < i ==> !(#[trigger] table[k]).contains(token),
    ensures
        first_entry(table, token) == Some(i),
    decreases table.len(),
{
    let d = table.drop_last();
    if i < table.len() - 1 {
        assert forall|k: int| 0 <= k < i implies !(#[trigger] d[k]).contains(token) by {
            assert(d[k] == table[k]);
        }
        assert(d[i] == table[i]);
        lemma_first_entry(d, token, i);
    } else {
        lemma_no_entry(d, token);
    }
}

proof fn lemma_no_entry(table: Seq<Seq<Seq<char>>>, token: Seq<char>)
    requires
        forall|k: int| 0 <= k < table.len() ==> !(#[trigger] table[k]).contains(token),
    ensures
        first_entry(table, token) is None,
    decreases table.len(),
{
    if table.len() > 0 {
        let d = table.drop_last();
        assert forall|k: int| 0 <= k < d.len() implies !(#[trigger] d[k]).contains(token) by {
            assert(d[k] == table[k]);
        }
        lemma_no_entry(d, token);
    }
}

/// What `parse_command` over a table whose aliases spell `table` shows: no command exactly
/// when no entry lists the token, and otherwise a command built by the first entry that
/// lists it, from the argument remainder.
proof fn lemma_parse_table<C, F: Fn(Option<&str>) -> C>(
    specs: Seq<CommandSpec<F>>,
    table: Seq<Seq<Seq<char>>>,
    input: Seq<char>,
    r: Option<C>,
)
    requires
        aliases_match(specs, table),
        r is None <==> forall|i: int| 0 <= i < specs.len() ==> !has_alias(
            (#[trigger] specs[i]).aliases@,
            command_token(input),
        ),
        r matches Some(c) ==> exists|i: int, a: Option<&str>|
            first_match(specs, command_token(input), i) && rest_arg(a, command_rest(input))
                && #[trigger] specs[i].build.ensures((a,), c),
    ensures
        r is None <==> first_entry(table, command_token(input)) is None,
        r matches Some(c) ==> exists|i: int, a: Option<&str>|
            first_entry(table, command_token(input)) == Some(i) && arg_text(a) == arg_of(input)
                && #[trigger] specs[i].build.ensures((a,), c),
{
    let token = command_token(input);
    if r is None {
        assert forall|k: int| 0 <= k < table.len() implies !(#[trigger] table[k]).contains(token) by {
            lemma_has_alias(specs, table, k, token);
        }
        lemma_no_entry(table, token);
    } else {
        let c = r->0;
        let (i, a) = choose|i: int, a: Option<&str>|
            first_match(specs, token, i) && rest_arg(a, command_rest(input))
                && #[trigger] specs[i].build.ensures((a,), c);
        lemma_has_alias(specs, table, i, token);
        assert forall|k: int| 0 <= k < i implies !(#[trigger] table[k]).contains(token) by {
            lemma_has_alias(specs, table, k, token);
        }
        lemma_first_entry(table, token, i);
        assert(arg_text(a) == arg_of(input));
    }
}

/// A parsed command of the CSMS view.
pub enum OcppServerCmd {
    Start,
    Stop,
    Restart,
    Edit,
    Compact,
    WriteDevice(Option<String>),
    Log(Option<String>),
    Rfid(Option<String>),
}

/// The abstract value of an [`OcppServerCmd`].
pub enum ServerCmdView {
    Start,
    Stop,
    Restart,
    Edit,
    Compact,
    WriteDevice(Option<Seq<char>>),
    Log(Option<Seq<char>>),
    Rfid(Option<Seq<char>>),
}

/// The abstract value of an optional string.
pub open spec fn owned_text(o: Option<String>) -> Option<Seq<char>> {
    match o {
        Some(s) => Some(s@),
        None => None,
    }
}

impl View for OcppServerCmd {
    type V = ServerCmdView;

    open spec fn view(&self) -> ServerCmdView {
        match self {
            OcppServerCmd::Start => ServerCmdView::Start,
            OcppServerCmd::Stop => ServerCmdView::Stop,
            OcppServerCmd::Restart => ServerCmdView::Restart,
            OcppServerCmd::Edit => ServerCmdView::Edit,
            OcppServerCmd::Compact => ServerCmdView::Compact,
            OcppServerCmd::WriteDevice(p) => ServerCmdView::WriteDevice(owned_text(*p)),
            OcppServerCmd::Log(p) => ServerCmdView::Log(owned_text(*p)),
            OcppServerCmd::Rfid(p) => ServerCmdView::Rfid(owned_text(*p)),
        }
    }
}

/// The aliases of the CSMS view's commands, in table order.
pub open spec fn server_aliases() -> Seq<Seq<Seq<char>>> {
    seq![
        seq!["start"@],
        seq!["stop"@],
        seq!["restart"@],
        seq!["e"@, "edit"@],
        seq!["wd"@, "write-device"@],
        seq!["compact"@],
        seq!["log"@],
        seq!["rfid"@],
    ]
}

/// The command entry `i` of the CSMS table builds from argument `arg`.
pub open spec fn server_build(i: int, arg: Option<Seq<char>>) -> ServerCmdView {
    if i == 0 {
        ServerCmdView::Start
    } else if i == 1 {
        ServerCmdView::Stop
    } else if i == 2 {
        ServerCmdView::Restart
    } else if i == 3 {
        ServerCmdView::Edit
    } else if i == 4 {
        ServerCmdView::WriteDevice(arg)
    } else if i == 5 {
        ServerCmdView::Compact
    } else if i == 6 {
        ServerCmdView::Log(arg)
    } else {
        ServerCmdView::Rfid(arg)
    }
}

/// The command the CSMS view reads from `input`: the entry whose alias is the first token,
/// built from the trimmed remainder; `None` for an unknown token.
pub open spec fn parse_server_spec(input: Seq<char>) -> Option<ServerCmdView> {
    match first_entry(server_aliases(), command_token(input)) {
        Some(i) => Some(server_build(i, arg_of(input))),
        None => None,
    }
}

/// The owned text of an argument remainder.
fn owned(a: Option<&str>) -> (r: Option<String>)
    ensures
        owned_text(r) == arg_text(a),
{
    match a {
        Some(s) => Some(String::from_str(s)),
        None => None,
    }
}

/// Build the command of CSMS table entry `i` from argument `rest`.
fn build_server(i: usize, rest: Option<&str>) -> (c: OcppServerCmd)
    ensures
        c@ == server_build(i as int, arg_text(rest)),
{
    if i == 0 {
        OcppServerCmd::Start
    } else if i == 1 {
        OcppServerCmd::Stop
    } else if i == 2 {
        OcppServerCmd::Restart
    } else if i == 3 {
        OcppServerCmd::Edit
    } else if i == 4 {
        OcppServerCmd::WriteDevice(owned(rest))
    } else if i == 5 {
        OcppServerCmd::Compact
    } else if i == 6 {
        OcppServerCmd::Log(owned(rest))
    } else {
        OcppServerCmd::Rfid(owned(rest))
    }
}

/// The aliases and help row of each command of a view, in table order.
pub type CommandTable = Vec<(&'static [&'static str], CommandDescriptor)>;

/// Whether the aliases of `table` spell `aliases`, entry by entry.
pub open spec fn table_spells(
    table: Seq<(&'static [&'static str], CommandDescriptor)>,
    aliases: Seq<Seq<Seq<char>>>,
) -> bool {
    &&& table.len() == aliases.len()
    &&& forall|i: int| 0 <= i < table.len() ==> str_views((#[trigger] table[i]).0@) == aliases[i]
}

/// The (name, description) text of each help row.
pub open spec fn help_rows(rows: Seq<CommandDescriptor>) -> Seq<(Seq<char>, Seq<char>)> {
    rows.map_values(|d: CommandDescriptor| (d.name@, d.description@))
}

/// The help rows of the CSMS view's commands, in table order.
pub open spec fn server_command_help() -> Seq<(Seq<char>, Seq<char>)> {
    seq![
        (":start"@, "bind the CSMS listener"@),
        (":stop"@, "unbind the CSMS listener"@),
        (":restart"@, "rebind the listener (clears entries)"@),
        (":e | :edit"@, "edit module setup"@),
        (":wd | :write-device [path]"@, "save device config"@),
        (":compact"@, "toggle compact rows"@),
        (":log [file]"@, "set/clear log file"@),
        (":rfid [add|del <tag> | clear]"@, "CSMS RFID accept-list"@),
    ]
}

/// The aliases and help row of each command of the CSMS view, in table order.
pub fn server_command_table() -> (r: CommandTable)
    ensures
        table_spells(r@, server_aliases()),
        help_rows(r@.map_values(|e: (&'static [&'static str], CommandDescriptor)| e.1))
            == server_command_help(),
{
    let mut v: CommandTable = Vec::new();
    v.push((&["start"], CommandDescriptor { name: ":start", description: "bind the CSMS listener" }));
    v.push((&["stop"], CommandDescriptor { name: ":stop", description: "unbind the CSMS listener" }));
    v.push(
        (
            &["restart"],
            CommandDescriptor { name: ":restart", description: "rebind the listener (clears entries)" },
        ),
    );
    v.push((&["e", "edit"], CommandDescriptor { name: ":e | :edit", description: "edit module setup" }));
    v.push(
        (
            &["wd", "write-device"],
            CommandDescriptor { name: ":wd | :write-device [path]", description: "save device config" },
        ),
    );
    v.push((&["compact"], CommandDescriptor { name: ":compact", description: "toggle compact rows" }));
    v.push((&["log"], CommandDescriptor { name: ":log [file]", description: "set/clear log file" }));
    v.push(
        (
            &["rfid"],
            CommandDescriptor {
                name: ":rfid [add|del <tag> | clear]",
                description: "CSMS RFID accept-list",
            },
        ),
    );
    proof {
        assert(help_rows(v@.map_values(|e: (&'static [&'static str], CommandDescriptor)| e.1))
            =~= server_command_help());
        assert forall|i: int| 0 <= i < v@.len() implies str_views((#[trigger] v@[i]).0@)
            == server_aliases()[i] by {
            if i == 0 {
                assert(str_views(v@[0].0@) =~= server_aliases()[0]);
            } else if i == 1 {
                assert(str_views(v@[1].0@) =~= server_aliases()[1]);
            } else if i == 2 {
                assert(str_views(v@[2].0@) =~= server_aliases()[2]);
            } else if i == 3 {
                assert(str_views(v@[3].0@) =~= server_aliases()[3]);
            } else if i == 4 {
                assert(str_views(v@[4].0@) =~= server_aliases()[4]);
            } else if i == 5 {
                assert(str_views(v@[5].0@) =~= server_aliases()[5]);
            } else if i == 6 {
                assert(str_views(v@[6].0@) =~= server_aliases()[6]);
            } else {
                assert(str_views(v@[7].0@) =~= server_aliases()[7]);
            }
        }
    }
    v
}

/// Whether each entry of `specs` has the aliases of the same entry of `table`.
pub open spec fn aliases_from<F>(
    specs: Seq<CommandSpec<F>>,
    table: Seq<(&'static [&'static str], CommandDescriptor)>,
) -> bool {
    forall|j: int| 0 <= j < specs.len() ==> (#[trigger] specs[j]).aliases == table[j].0
}

/// Whether each entry of `specs` builds the CSMS command of its position.
pub open spec fn server_builders<F: Fn(Option<&str>) -> OcppServerCmd>(specs: Seq<CommandSpec<F>>) -> bool {
    &&& forall|j: int, a: Option<&str>| 0 <= j < specs.len() ==> #[trigger] specs[j].build.requires((a,))
    &&& forall|j: int, a: Option<&str>, c: OcppServerCmd|
        0 <= j < specs.len() && #[trigger] specs[j].build.ensures((a,), c) ==> c@ == server_build(
            j,
            arg_text(a),
        )
}

proof fn lemma_first_entry_bounds(table: Seq<Seq<Seq<char>>>, token: Seq<char>)
    ensures
        first_entry(table, token) matches Some(i) ==> 0 <= i < table.len(),
    decreases table.len(),
{
    if table.len() > 0 {
        lemma_first_entry_bounds(table.drop_last(), token);
    }
}

/// Parse a CSMS view command line against [`server_command_table`].
pub fn parse_server_command(input: &str) -> (r: Option<OcppServerCmd>)
    ensures
        r is Some == parse_server_spec(input@) is Some,
        r matches Some(c) ==> c@ == parse_server_spec(input@)->0,
{
    let table = server_command_table();
    let mut specs: Vec<CommandSpec<_>> = Vec::new();
    let mut i: usize = 0;
    while i < table.len()
        invariant
            i <= table@.len(),
            table_spells(table@, server_aliases()),
            specs@.len() == i,
            aliases_from(specs@, table@),
            server_builders(specs@),
        decreases table@.len() - i,
    {
        let k = i;
        let build = move |rest: Option<&str>| -> (c: OcppServerCmd)
            ensures
                c@ == server_build(k as int, arg_text(rest)),
            { build_server(k, rest) };
        specs.push(CommandSpec { aliases: table[i].0, descriptor: table[i].1, build });
        i = i + 1;
    }
    proof {
        assert(aliases_match(specs@, server_aliases()));
    }
    let r = parse_command(specs.as_slice(), input);
    proof {
        lemma_parse_table(specs@, server_aliases(), input@, r);
        lemma_first_entry_bounds(server_aliases(), command_token(input@));
        if r is Some {
            let c = r->0;
            let (j, a) = choose|j: int, a: Option<&str>|
                first_entry(server_aliases(), command_token(input@)) == Some(j) && arg_text(a)
                    == arg_of(input@) && #[trigger] specs@[j].build.ensures((a,), c);
            assert(c@ == server_build(j, arg_text(a)));
        }
    }
    r
}

/// The help rows of the CSMS view: one per command, then the keys that are not commands.
pub fn server_commands() -> (r: Vec<CommandDescriptor>)
    ensures
        help_rows(r@) == server_command_help() + seq![
            ("d"@, "delete the selected charging station / connector"@),
            ("Enter"@, "open the selected entry's detail overlay"@),
        ],
{
    let table = server_command_table();
    let ghost rows = table@.map_values(|e: (&'static [&'static str], CommandDescriptor)| e.1);
    let mut r: Vec<CommandDescriptor> = Vec::new();
    let mut i: usize = 0;
    while i < table.len()
        invariant
            i <= table@.len(),
            rows == table@.map_values(|e: (&'static [&'static str], CommandDescriptor)| e.1),
            r@ == rows.take(i as int),
        decreases table@.len() - i,
    {
        r.push(table[i].1);
        assert(r@ =~= rows.take(i + 1));
        i = i + 1;
    }
    assert(rows.take(table@.len() as int) =~= rows);
    let ghost commands = r@;
    r.push(CommandDescriptor { name: "d", description: "delete the selected charging station / connector" });
    r.push(CommandDescriptor { name: "Enter", description: "open the selected entry's detail overlay" });
    assert(help_rows(r@) =~= help_rows(commands) + seq![
        ("d"@, "delete the selected charging station / connector"@),
        ("Enter"@, "open the selected entry's detail overlay"@),
    ]);
    r
}


/// A parsed command of the charging-station view.
pub enum OcppClientCmd {
    Start,
    Stop,
    Restart,
    Edit,
    Compact,
    WriteDevice(Option<String>),
    Log(Option<String>),
}

/// The abstract value of an [`OcppClientCmd`].
pub enum ClientCmdView {
    Start,
    Stop,
    Restart,
    Edit,
    Compact,
    WriteDevice(Option<Seq<char>>),
    Log(Option<Seq<char>>),
}

impl View for OcppClientCmd {
    type V = ClientCmdView;

    open spec fn view(&self) -> ClientCmdView {
        match self {
            OcppClientCmd::Start => ClientCmdView::Start,
            OcppClientCmd::Stop => ClientCmdView::Stop,
            OcppClientCmd::Restart => ClientCmdView::Restart,
            OcppClientCmd::Edit => ClientCmdView::Edit,
            OcppClientCmd::Compact => ClientCmdView::Compact,
            OcppClientCmd::WriteDevice(p) => ClientCmdView::WriteDevice(owned_text(*p)),
            OcppClientCmd::Log(p) => ClientCmdView::Log(owned_text(*p)),
        }
    }
}

/// The aliases of the charging-station view's commands, in table order.
pub open spec fn client_aliases() -> Seq<Seq<Seq<char>>> {
    seq![
        seq!["e"@, "edit"@],
        seq!["start"@],
        seq!["stop"@],
        seq!["restart"@],
        seq!["compact"@],
        seq!["wd"@, "write-device"@],
        seq!["log"@],
    ]
}

/// The help rows of the charging-station view's commands, in table order.
pub open spec fn client_command_help() -> Seq<(Seq<char>, Seq<char>)> {
    seq![
        (":e | :edit"@, "edit module setup"@),
        (":start"@, "connect to the CSMS"@),
        (":stop"@, "disconnect"@),
        (":restart"@, "reconnect"@),
        (":compact"@, "toggle compact rows"@),
        (":wd | :write-device [path]"@, "save device config"@),
        (":log [file]"@, "set/clear log file"@),
    ]
}

/// The command entry `i` of the charging-station table builds from argument `arg`.
pub open spec fn client_build(i: int, arg: Option<Seq<char>>) -> ClientCmdView {
    if i == 0 {
        ClientCmdView::Edit
    } else if i == 1 {
        ClientCmdView::Start
    } else if i == 2 {
        ClientCmdView::Stop
    } else if i == 3 {
        ClientCmdView::Restart
    } else if i == 4 {
        ClientCmdView::Compact
    } else if i == 5 {
        ClientCmdView::WriteDevice(arg)
    } else {
        ClientCmdView::Log(arg)
    }
}

/// The command the charging-station view reads from `input`: the entry whose alias is the
/// first token, built from the trimmed remainder; `None` for an unknown token.
pub open spec fn parse_client_spec(input: Seq<char>) -> Option<ClientCmdView> {
    match first_entry(client_aliases(), command_token(input)) {
        Some(i) => Some(client_build(i, arg_of(input))),
        None => None,
    }
}

/// Build the command of charging-station table entry `i` from argument `rest`.
fn build_client(i: usize, rest: Option<&str>) -> (c: OcppClientCmd)
    ensures
        c@ == client_build(i as int, arg_text(rest)),
{
    if i == 0 {
        OcppClientCmd::Edit
    } else if i == 1 {
        OcppClientCmd::Start
    } else if i == 2 {
        OcppClientCmd::Stop
    } else if i == 3 {
        OcppClientCmd::Restart
    } else if i == 4 {
        OcppClientCmd::Compact
    } else if i == 5 {
        OcppClientCmd::WriteDevice(owned(rest))
    } else {
        OcppClientCmd::Log(owned(rest))
    }
}

/// The aliases and help row of each command of the charging-station view, in table order.
pub fn client_command_table() -> (r: CommandTable)
    ensures
        table_spells(r@, client_aliases()),
        help_rows(r@.map_values(|e: (&'static [&'static str], CommandDescriptor)| e.1))
            == client_command_help(),
{
    let mut v: CommandTable = Vec::new();
    v.push((&["e", "edit"], CommandDescriptor { name: ":e | :edit", description: "edit module setup" }));
    v.push((&["start"], CommandDescriptor { name: ":start", description: "connect to the CSMS" }));
    v.push((&["stop"], CommandDescriptor { name: ":stop", description: "disconnect" }));
    v.push((&["restart"], CommandDescriptor { name: ":restart", description: "reconnect" }));
    v.push((&["compact"], CommandDescriptor { name: ":compact", description: "toggle compact rows" }));
    v.push(
        (
            &["wd", "write-device"],
            CommandDescriptor { name: ":wd | :write-device [path]", description: "save device config" },
        ),
    );
    v.push((&["log"], CommandDescriptor { name: ":log [file]", description: "set/clear log file" }));
    proof {
        assert(help_rows(v@.map_values(|e: (&'static [&'static str], CommandDescriptor)| e.1))
            =~= client_command_help());
        assert forall|i: int| 0 <= i < v@.len() implies str_views((#[trigger] v@[i]).0@)
            == client_aliases()[i] by {
            if i == 0 {
                assert(str_views(v@[0].0@) =~= client_aliases()[0]);
            } else if i == 1 {
                assert(str_views(v@[1].0@) =~= client_aliases()[1]);
            } else if i == 2 {
                assert(str_views(v@[2].0@) =~= client_aliases()[2]);
            } else if i == 3 {
                assert(str_views(v@[3].0@) =~= client_aliases()[3]);
            } else if i == 4 {
                assert(str_views(v@[4].0@) =~= client_aliases()[4]);
            } else if i == 5 {
                assert(str_views(v@[5].0@) =~= client_aliases()[5]);
            } else {
                assert(str_views(v@[6].0@) =~= client_aliases()[6]);
            }
        }
    }
    v
}

/// Whether each entry of `specs` builds the charging-station command of its position.
pub open spec fn client_builders<F: Fn(Option<&str>) -> OcppClientCmd>(specs: Seq<CommandSpec<F>>) -> bool {
    &&& forall|j: int, a: Option<&str>| 0 <= j < specs.len() ==> #[trigger] specs[j].build.requires((a,))
    &&& forall|j: int, a: Option<&str>, c: OcppClientCmd|
        0 <= j < specs.len() && #[trigger] specs[j].build.ensures((a,), c) ==> c@ == client_build(
            j,
            arg_text(a),
        )
}

/// Parse a charging-station view command line against [`client_command_table`].
pub fn parse_client_command(input: &str) -> (r: Option<OcppClientCmd>)
    ensures
        r is Some == parse_client_spec(input@) is Some,
        r matches Some(c) ==> c@ == parse_client_spec(input@)->0,
{
    let table = client_command_table();
    let mut specs: Vec<CommandSpec<_>> = Vec::new();
    let mut i: usize = 0;
    while i < table.len()
        invariant
            i <= table@.len(),
            table_spells(table@, client_aliases()),
            specs@.len() == i,
            aliases_from(specs@, table@),
            client_builders(specs@),
        decreases table@.len() - i,
    {
        let k = i;
        let build = move |rest: Option<&str>| -> (c: OcppClientCmd)
            ensures
                c@ == client_build(k as int, arg_text(rest)),
            { build_client(k, rest) };
        specs.push(CommandSpec { aliases: table[i].0, descriptor: table[i].1, build });
        i = i + 1;
    }
    proof {
        assert(aliases_match(specs@, client_aliases()));
    }
    let r = parse_command(specs.as_slice(), input);
    proof {
        lemma_parse_table(specs@, client_aliases(), input@, r);
        lemma_first_entry_bounds(client_aliases(), command_token(input@));
        if r is Some {
            let c = r->0;
            let (j, a) = choose|j: int, a: Option<&str>|
                first_entry(client_aliases(), command_token(input@)) == Some(j) && arg_text(a)
                    == arg_of(input@) && #[trigger] specs@[j].build.ensures((a,), c);
            assert(c@ == client_build(j, arg_text(a)));
        }
    }
    r
}

/// The help rows of the charging-station view, one per command.
pub fn client_commands() -> (r: Vec<CommandDescriptor>)
    ensures
        help_rows(r@) == client_command_help(),
{
    let table = client_command_table();
    let ghost rows = table@.map_values(|e: (&'static [&'static str], CommandDescriptor)| e.1);
    let mut r: Vec<CommandDescriptor> = Vec::new();
    let mut i: usize = 0;
    while i < table.len()
        invariant
            i <= table@.len(),
            rows == table@.map_values(|e: (&'static [&'static str], CommandDescriptor)| e.1),
            r@ == rows.take(i as int),
        decreases table@.len() - i,
    {
        r.push(table[i].1);
        assert(r@ =~= rows.take(i + 1));
        i = i + 1;
    }
    assert(rows.take(table@.len() as int) =~= rows);
    r
}
/// Every command of the charging-station view, by the token it is spelled with: the
/// argument-taking ones (`wd` / `write-device`, `log`) receive the trimmed remainder of
/// the line, `None` when it is empty; any other token is no command.
pub proof fn lemma_client_commands(input: Seq<char>)
    ensures
        ({
            let t = command_token(input);
            let p = parse_client_spec(input);
            &&& (t == "e"@ || t == "edit"@) ==> p == Some(ClientCmdView::Edit)
            &&& t == "start"@ ==> p == Some(ClientCmdView::Start)
            &&& t == "stop"@ ==> p == Some(ClientCmdView::Stop)
            &&& t == "restart"@ ==> p == Some(ClientCmdView::Restart)
            &&& t == "compact"@ ==> p == Some(ClientCmdView::Compact)
            &&& (t == "wd"@ || t == "write-device"@) ==> p == Some(ClientCmdView::WriteDevice(arg_of(input)))
            &&& t == "log"@ ==> p == Some(ClientCmdView::Log(arg_of(input)))
            &&& (t != "e"@ && t != "edit"@ && t != "start"@ && t != "stop"@ && t != "restart"@ && t
                != "compact"@ && t != "wd"@ && t != "write-device"@ && t != "log"@) ==> p is None
        }),
{
    reveal_strlit("e");
    reveal_strlit("edit");
    reveal_strlit("start");
    reveal_strlit("stop");
    reveal_strlit("restart");
    reveal_strlit("compact");
    reveal_strlit("wd");
    reveal_strlit("write-device");
    reveal_strlit("log");
    let t = command_token(input);
    let table = client_aliases();
    assert("e"@.len() == 1 && "e"@[0] == 'e');
    assert("edit"@.len() == 4 && "edit"@[0] == 'e');
    assert("start"@.len() == 5 && "start"@[0] == 's');
    assert("stop"@.len() == 4 && "stop"@[0] == 's');
    assert("restart"@.len() == 7 && "restart"@[0] == 'r');
    assert("compact"@.len() == 7 && "compact"@[0] == 'c');
    assert("wd"@.len() == 2 && "wd"@[0] == 'w');
    assert("write-device"@.len() == 12 && "write-device"@[0] == 'w');
    assert("log"@.len() == 3 && "log"@[0] == 'l');
    let cases: Seq<(Seq<char>, int, int)> = seq![
        ("e"@, 0, 0),
        ("edit"@, 0, 1),
        ("start"@, 1, 0),
        ("stop"@, 2, 0),
        ("restart"@, 3, 0),
        ("compact"@, 4, 0),
        ("wd"@, 5, 0),
        ("write-device"@, 5, 1),
        ("log"@, 6, 0),
    ];
    assert forall|c: int| 0 <= c < cases.len() && t == (#[trigger] cases[c]).0 implies parse_client_spec(input)
        == Some(client_build(cases[c].1, arg_of(input))) by {
        assert(table[cases[c].1][cases[c].2] == t);
        assert forall|k: int| 0 <= k < cases[c].1 implies !(#[trigger] table[k]).contains(t) by {
            assert forall|j: int| 0 <= j < table[k].len() implies table[k][j] != t by {
                assert(table[k][j].len() != t.len() || table[k][j][0] != t[0]);
            }
        }
        lemma_first_entry(table, t, cases[c].1);
    }
    assert(t == "e"@ ==> t == cases[0].0);
    assert(t == "edit"@ ==> t == cases[1].0);
    assert(t == "start"@ ==> t == cases[2].0);
    assert(t == "stop"@ ==> t == cases[3].0);
    assert(t == "restart"@ ==> t == cases[4].0);
    assert(t == "compact"@ ==> t == cases[5].0);
    assert(t == "wd"@ ==> t == cases[6].0);
    assert(t == "write-device"@ ==> t == cases[7].0);
    assert(t == "log"@ ==> t == cases[8].0);
    if t != "e"@ && t != "edit"@ && t != "start"@ && t != "stop"@ && t != "restart"@ && t != "compact"@
        && t != "wd"@ && t != "write-device"@ && t != "log"@ {
        lemma_no_entry(table, t);
    }
}

/// Every command of the CSMS view, by the token it is spelled with: the argument-taking
/// ones (`wd` / `write-device`, `log`, `rfid`) receive the trimmed remainder of the line,
/// `None` when it is empty; any other token is no command.
pub proof fn lemma_server_commands(input: Seq<char>)
    ensures
        ({
            let t = command_token(input);
            let p = parse_server_spec(input);
            &&& t == "start"@ ==> p == Some(ServerCmdView::Start)
            &&& t == "stop"@ ==> p == Some(ServerCmdView::Stop)
            &&& t == "restart"@ ==> p == Some(ServerCmdView::Restart)
            &&& (t == "e"@ || t == "edit"@) ==> p == Some(ServerCmdView::Edit)
            &&& (t == "wd"@ || t == "write-device"@) ==> p == Some(ServerCmdView::WriteDevice(arg_of(input)))
            &&& t == "compact"@ ==> p == Some(ServerCmdView::Compact)
            &&& t == "log"@ ==> p == Some(ServerCmdView::Log(arg_of(input)))
            &&& t == "rfid"@ ==> p == Some(ServerCmdView::Rfid(arg_of(input)))
            &&& (t != "e"@ && t != "edit"@ && t != "start"@ && t != "stop"@ && t != "restart"@ && t
                != "compact"@ && t != "wd"@ && t != "write-device"@ && t != "log"@ && t != "rfid"@)
                ==> p is None
        }),
{
    reveal_strlit("start");
    reveal_strlit("stop");
    reveal_strlit("restart");
    reveal_strlit("e");
    reveal_strlit("edit");
    reveal_strlit("wd");
    reveal_strlit("write-device");
    reveal_strlit("compact");
    reveal_strlit("log");
    reveal_strlit("rfid");
    let t = command_token(input);
    let table = server_aliases();
    assert("start"@.len() == 5 && "start"@[0] == 's');
    assert("stop"@.len() == 4 && "stop"@[0] == 's');
    assert("restart"@.len() == 7 && "restart"@[0] == 'r');
    assert("e"@.len() == 1 && "e"@[0] == 'e');
    assert("edit"@.len() == 4 && "edit"@[0] == 'e');
    assert("wd"@.len() == 2 && "wd"@[0] == 'w');
    assert("write-device"@.len() == 12 && "write-device"@[0] == 'w');
    assert("compact"@.len() == 7 && "compact"@[0] == 'c');
    assert("log"@.len() == 3 && "log"@[0] == 'l');
    assert("rfid"@.len() == 4 && "rfid"@[0] == 'r');
    let cases: Seq<(Seq<char>, int, int)> = seq![
        ("start"@, 0, 0),
        ("stop"@, 1, 0),
        ("restart"@, 2, 0),
        ("e"@, 3, 0),
        ("edit"@, 3, 1),
        ("wd"@, 4, 0),
        ("write-device"@, 4, 1),
        ("compact"@, 5, 0),
        ("log"@, 6, 0),
        ("rfid"@, 7, 0),
    ];
    assert forall|c: int| 0 <= c < cases.len() && t == (#[trigger] cases[c]).0 implies parse_server_spec(input)
        == Some(server_build(cases[c].1, arg_of(input))) by {
        assert(table[cases[c].1][cases[c].2] == t);
        assert forall|k: int| 0 <= k < cases[c].1 implies !(#[trigger] table[k]).contains(t) by {
            assert forall|j: int| 0 <= j < table[k].len() implies table[k][j] != t by {
                assert(table[k][j].len() != t.len() || table[k][j][0] != t[0]);
            }
        }
        lemma_first_entry(table, t, cases[c].1);
    }
    assert(t == "start"@ ==> t == cases[0].0);
    assert(t == "stop"@ ==> t == cases[1].0);
    assert(t == "restart"@ ==> t == cases[2].0);
    assert(t == "e"@ ==> t == cases[3].0);
    assert(t == "edit"@ ==> t == cases[4].0);
    assert(t == "wd"@ ==> t == cases[5].0);
    assert(t == "write-device"@ ==> t == cases[6].0);
    assert(t == "compact"@ ==> t == cases[7].0);
    assert(t == "log"@ ==> t == cases[8].0);
    assert(t == "rfid"@ ==> t == cases[9].0);
    if t != "e"@ && t != "edit"@ && t != "start"@ && t != "stop"@ && t != "restart"@ && t != "compact"@
        && t != "wd"@ && t != "write-device"@ && t != "log"@ && t != "rfid"@ {
        lemma_no_entry(table, t);
    }
}

/// Dispatch picks the first table entry that lists the token among its aliases: the entry
/// found lists it and none before it does; nothing is found exactly when no entry lists it.
pub proof fn lemma_first_entry_is_first(table: Seq<Seq<Seq<char>>>, token: Seq<char>)
    ensures
        first_entry(table, token) matches Some(i) ==> 0 <= i < table.len() && table[i].contains(token)
            && forall|k: int| 0 <= k < i ==> !(#[trigger] table[k]).contains(token),
        first_entry(table, token) is None ==> forall|k: int|
            0 <= k < table.len() ==> !(#[trigger] table[k]).contains(token),
    decreases table.len(),
{
    if table.len() > 0 {
        let d = table.drop_last();
        lemma_first_entry_is_first(d, token);
        assert forall|k: int| 0 <= k < d.len() implies d[k] == table[k] by {}
    }
}

} // verus!
