//! Register settings: a device with its channel, its registers and its
//! functions.
//!
//! The setting holds the channel. Below each register and each function it
//! shows a file `value`, and hands its channel to the reads and writes
//! there.

use vstd::prelude::*;
use crate::address::{parse_address_spec, Address};
use crate::channel::CommChannel;
use crate::error::{Error, ErrorView};
use crate::function::Function;
use crate::fuseable::{
    bool_result, entries_of, names_view, path_view, reading_result, rest_of, writing_result,
    Fuseable, Reading, ReadingView, Writing, WritingView,
};
use crate::named_map::{
    distinct_names, index_of_name, lemma_index_of_name, lemma_index_of_name_at, NamedMap,
};
use crate::register::{Description, Register};
use crate::text::same_text;
use crate::valuemap::ValueMap;

verus! {

/// A node with a value on a device, which is reached through a channel
/// that the node does not hold.
pub trait DeviceValue: Fuseable {
    /// What reading the value through `channel` comes to.
    spec fn value_read_spec(&self, path: Seq<Seq<char>>, channel: CommChannel) -> Result<
        ReadingView,
        ErrorView,
    >;

    /// What writing `value` through `channel` comes to.
    spec fn value_write_spec(
        &self,
        path: Seq<Seq<char>>,
        value: Seq<u8>,
        channel: CommChannel,
    ) -> Result<WritingView, ErrorView>;

    /// Reads the value through `channel`.
    fn value_read<'a>(&'a self, path: &[&str], channel: &CommChannel) -> (r: Result<
        Reading<'a>,
        Error,
    >)
        ensures
            reading_result(r) == self.value_read_spec(path_view(path@), *channel),
    ;

    /// Writes `value` through `channel`.
    fn value_write(&self, path: &[&str], value: Vec<u8>, channel: &CommChannel) -> (r: Result<
        Writing,
        Error,
    >)
        ensures
            writing_result(r) == self.value_write_spec(path_view(path@), value@, *channel),
    ;
}

impl DeviceValue for Register {
    open spec fn value_read_spec(&self, path: Seq<Seq<char>>, channel: CommChannel) -> Result<
        ReadingView,
        ErrorView,
    > {
        self.read_value_spec(path, channel)
    }

    open spec fn value_write_spec(
        &self,
        path: Seq<Seq<char>>,
        value: Seq<u8>,
        channel: CommChannel,
    ) -> Result<WritingView, ErrorView> {
        self.write_value_spec(path, value, channel)
    }

    fn value_read<'a>(&'a self, path: &[&str], channel: &CommChannel) -> (r: Result<
        Reading<'a>,
        Error,
    >) {
        self.read_value(path, channel)
    }

    fn value_write(&self, path: &[&str], value: Vec<u8>, channel: &CommChannel) -> (r: Result<
        Writing,
        Error,
    >) {
        self.write_value(path, value, channel)
    }
}

impl DeviceValue for Function {
    open spec fn value_read_spec(&self, path: Seq<Seq<char>>, channel: CommChannel) -> Result<
        ReadingView,
        ErrorView,
    > {
        self.read_value_spec(path, channel)
    }

    open spec fn value_write_spec(
        &self,
        path: Seq<Seq<char>>,
        value: Seq<u8>,
        channel: CommChannel,
    ) -> Result<WritingView, ErrorView> {
        self.write_value_spec(path, value, channel)
    }

    fn value_read<'a>(&'a self, path: &[&str], channel: &CommChannel) -> (r: Result<
        Reading<'a>,
        Error,
    >) {
        self.read_value(path, channel)
    }

    fn value_write(&self, path: &[&str], value: Vec<u8>, channel: &CommChannel) -> (r: Result<
        Writing,
        Error,
    >) {
        self.write_value(path, value, channel)
    }
}

/// Whether `path` names the value of an entry: a name, then `value`.
pub open spec fn names_value(path: Seq<Seq<char>>) -> bool {
    path.len() >= 2 && path[1] == "value"@
}

/// Whether `path` leads to a directory below nodes with values. The value
/// of an entry is a file, whatever follows it in the path.
pub open spec fn is_dir_with_value_spec<T: DeviceValue>(map: NamedMap<T>, path: Seq<Seq<char>>) -> Result<
    bool,
    ErrorView,
> {
    if names_value(path) {
        match map.lookup(path[0]) {
            Some(_) => Ok(false),
            None => Err(ErrorView::NotFound(path[0])),
        }
    } else {
        map.is_dir_spec(path)
    }
}

/// A reading with `value` as one more entry, where it is a directory.
pub open spec fn with_value_entry(r: Result<ReadingView, ErrorView>) -> Result<ReadingView, ErrorView> {
    match r {
        Ok(ReadingView::Entries(names)) => Ok(ReadingView::Entries(names.push("value"@))),
        other => other,
    }
}

/// What is read at `path` below nodes with values.
pub open spec fn read_with_value_spec<T: DeviceValue>(
    map: NamedMap<T>,
    path: Seq<Seq<char>>,
    channel: CommChannel,
) -> Result<ReadingView, ErrorView> {
    if path.len() == 1 {
        with_value_entry(map.read_spec(path))
    } else if names_value(path) {
        match map.lookup(path[0]) {
            Some(node) => node.value_read_spec(path.skip(2), channel),
            None => Err(ErrorView::NotFound(path[0])),
        }
    } else {
        map.read_spec(path)
    }
}

/// What a write of `value` at `path` below nodes with values comes to.
pub open spec fn write_with_value_spec<T: DeviceValue>(
    map: NamedMap<T>,
    path: Seq<Seq<char>>,
    value: Seq<u8>,
    channel: CommChannel,
) -> Result<WritingView, ErrorView> {
    if names_value(path) {
        match map.lookup(path[0]) {
            Some(node) => node.value_write_spec(path.skip(2), value, channel),
            None => Err(ErrorView::NotFound(path[0])),
        }
    } else {
        map.write_spec(path, value)
    }
}

/// Whether `path` names the value of an entry.
fn is_value_path(path: &[&str]) -> (r: bool)
    ensures
        r == names_value(path_view(path@)),
{
    path.len() >= 2 && same_text(path[1], "value")
}

/// Whether `path` leads to a directory below nodes with values.
pub fn is_dir_with_value<T: DeviceValue>(map: &NamedMap<T>, path: &[&str]) -> (r: Result<bool, Error>)
    ensures
        bool_result(r) == is_dir_with_value_spec(*map, path_view(path@)),
{
    if is_value_path(path) {
        match map.get(path[0]) {
            Some(_) => Ok(false),
            None => Err(Error::NotFound(path[0].to_owned())),
        }
    } else {
        map.is_dir(path)
    }
}

/// What is read at `path` below nodes with values, which are reached
/// through `channel`.
pub fn read_with_value<'a, T: DeviceValue>(
    map: &'a NamedMap<T>,
    path: &[&str],
    channel: &CommChannel,
) -> (r: Result<Reading<'a>, Error>)
    ensures
        reading_result(r) == read_with_value_spec(*map, path_view(path@), *channel),
{
    if path.len() == 1 {
        match map.read(path) {
            Ok(Reading::Entries(mut names)) => {
                let ghost before = names_view(names@);
                names.push("value".to_owned());
                assert(names_view(names@) =~= before.push("value"@));
                Ok(Reading::Entries(names))
            },
            other => other,
        }
    } else if is_value_path(path) {
        match map.get(path[0]) {
            Some(node) => {
                let rest = rest_of(rest_of(path));
                assert(path_view(rest@) =~= path_view(path@).skip(2));
                node.value_read(rest, channel)
            },
            None => Err(Error::NotFound(path[0].to_owned())),
        }
    } else {
        map.read(path)
    }
}

/// What a write of `value` at `path` below nodes with values comes to.
pub fn write_with_value<T: DeviceValue>(
    map: &NamedMap<T>,
    path: &[&str],
    value: Vec<u8>,
    channel: &CommChannel,
) -> (r: Result<Writing, Error>)
    ensures
        writing_result(r) == write_with_value_spec(*map, path_view(path@), value@, *channel),
{
    if is_value_path(path) {
        match map.get(path[0]) {
            Some(node) => {
                let rest = rest_of(rest_of(path));
                assert(path_view(rest@) =~= path_view(path@).skip(2));
                node.value_write(rest, value, channel)
            },
            None => Err(Error::NotFound(path[0].to_owned())),
        }
    } else {
        map.write(path, value)
    }
}

/// A device: the channel that reaches it, its registers and its functions.
#[derive(Debug)]
pub struct RegisterSetting {
    pub(crate) channel: CommChannel,
    pub(crate) map: NamedMap<Register>,
    pub(crate) functions: NamedMap<Function>,
}

/// A function as it is configured: its name, its address as text, and the
/// rest of what it holds.
#[derive(Debug)]
pub struct FunctionConfig {
    pub name: String,
    pub addr: String,
    pub desc: Option<Description>,
    pub map: Option<ValueMap>,
    pub writable: bool,
    pub default: Option<u64>,
}

/// The names of the configured functions.
pub open spec fn config_names(configs: Seq<FunctionConfig>) -> Seq<Seq<char>> {
    Seq::new(configs.len(), |i: int| configs[i].name@)
}

/// The first `n` of `names` in their order, each once.
pub open spec fn first_names(names: Seq<Seq<char>>, n: nat) -> Seq<Seq<char>>
    decreases n,
{
    if n == 0 {
        Seq::empty()
    } else {
        let before = first_names(names, (n - 1) as nat);
        if index_of_name(before, names[n - 1]) is Some {
            before
        } else {
            before.push(names[n - 1])
        }
    }
}

/// The index of the first configured function whose address cannot be
/// read.
pub open spec fn first_unresolved(configs: Seq<FunctionConfig>, map: NamedMap<Register>) -> Option<int>
    decreases configs.len(),
{
    if configs.len() == 0 {
        None
    } else if parse_address_spec(configs[0].addr@, Some(&map), None) is None {
        Some(0)
    } else {
        match first_unresolved(configs.drop_first(), map) {
            Some(i) => Some(i + 1),
            None => None,
        }
    }
}

/// Whether `function` is what `config` describes, with the address read
/// among the registers `map`.
pub open spec fn describes(function: Function, config: FunctionConfig, map: NamedMap<Register>) -> bool {
    &&& Some(function.spec_addr()@) == parse_address_spec(config.addr@, Some(&map), None)
    &&& function.spec_desc() == config.desc
    &&& function.spec_map() == config.map
    &&& function.spec_writable() == config.writable
    &&& function.spec_default() == config.default
}

/// Whether `function` is what the last of the first `n` configurations
/// under `name` describes.
pub open spec fn entry_holds(
    name: Seq<char>,
    function: Function,
    configs: Seq<FunctionConfig>,
    map: NamedMap<Register>,
    n: nat,
) -> bool {
    match index_of_name(config_names(configs).take(n as int), name) {
        Some(last) => describes(function, configs[last], map),
        None => false,
    }
}

/// Whether the names and the functions under them are what the first `n`
/// configured functions describe: each name once, in the order in which the
/// names come first, and under each name what its last configuration
/// describes.
pub open spec fn holds_functions(
    names: Seq<Seq<char>>,
    functions: Seq<Function>,
    configs: Seq<FunctionConfig>,
    map: NamedMap<Register>,
    n: nat,
) -> bool {
    &&& names.len() == functions.len()
    &&& names == first_names(config_names(configs), n)
    &&& forall|j: int|
        0 <= j < names.len() ==> entry_holds(names[j], #[trigger] functions[j], configs, map, n)
}

/// One more configured function keeps the names and functions what the
/// configured functions describe.
proof fn lemma_holds_one_more(
    names: Seq<Seq<char>>,
    functions: Seq<Function>,
    configs: Seq<FunctionConfig>,
    map: NamedMap<Register>,
    n: nat,
    function: Function,
)
    requires
        n < configs.len(),
        distinct_names(names),
        holds_functions(names, functions, configs, map, n),
        describes(function, configs[n as int], map),
    ensures
        match index_of_name(names, configs[n as int].name@) {
            Some(i) => holds_functions(
                names,
                functions.update(i, function),
                configs,
                map,
                n + 1,
            ),
            None => holds_functions(
                names.push(configs[n as int].name@),
                functions.push(function),
                configs,
                map,
                n + 1,
            ),
        },
{
    let all = config_names(configs);
    let name = configs[n as int].name@;
    let taken = all.take(n as int + 1);
    assert(all[n as int] == name);
    assert(taken.drop_last() =~= all.take(n as int));
    assert(taken.last() == name);
    lemma_index_of_name(names, name);
    assert(first_names(all, n + 1) == if index_of_name(first_names(all, n), all[n as int])
        is Some {
        first_names(all, n)
    } else {
        first_names(all, n).push(all[n as int])
    });
    match index_of_name(names, name) {
        Some(i) => {
            let after = functions.update(i, function);
            assert forall|j: int| 0 <= j < names.len() implies entry_holds(
                names[j],
                #[trigger] after[j],
                configs,
                map,
                n + 1,
            ) by {
                if names[j] == name {
                    lemma_index_of_name_at(names, j);
                    assert(j == i);
                    assert(index_of_name(taken, names[j]) == Some(n as int));
                } else {
                    assert(after[j] == functions[j]);
                    assert(entry_holds(names[j], functions[j], configs, map, n));
                    assert(index_of_name(taken, names[j]) == index_of_name(
                        all.take(n as int),
                        names[j],
                    ));
                }
            }
        },
        None => {
            let longer = names.push(name);
            let after = functions.push(function);
            assert forall|j: int| 0 <= j < longer.len() implies entry_holds(
                longer[j],
                #[trigger] after[j],
                configs,
                map,
                n + 1,
            ) by {
                if j == names.len() {
                    assert(index_of_name(taken, longer[j]) == Some(n as int));
                } else {
                    assert(names.contains(names[j]));
                    assert(longer[j] != name);
                    assert(after[j] == functions[j]);
                    assert(entry_holds(names[j], functions[j], configs, map, n));
                    assert(index_of_name(taken, longer[j]) == index_of_name(
                        all.take(n as int),
                        names[j],
                    ));
                }
            }
        },
    }
}

/// What making a register setting of its configured parts returns.
pub open spec fn made_of(
    r: Result<RegisterSetting, Error>,
    channel: CommChannel,
    map: NamedMap<Register>,
    configs: Seq<FunctionConfig>,
) -> bool {
    match first_unresolved(configs, map) {
        Some(i) => r matches Err(e) && e@ == ErrorView::BadAddress(configs[i].addr@),
        None => r matches Ok(setting) && setting.spec_channel() == channel && setting.spec_map()
            == map && holds_functions(
            setting.spec_functions().names(),
            setting.spec_functions().values(),
            configs,
            map,
            configs.len(),
        ),
    }
}

/// The names of what a register setting holds.
pub open spec fn setting_fields() -> Seq<Seq<char>> {
    seq!["channel"@, "map"@, "functions"@]
}

impl RegisterSetting {
    /// The channel of the device.
    pub closed spec fn spec_channel(&self) -> CommChannel {
        self.channel
    }

    /// The registers of the device.
    pub closed spec fn spec_map(&self) -> NamedMap<Register> {
        self.map
    }

    /// The functions of the device.
    pub closed spec fn spec_functions(&self) -> NamedMap<Function> {
        self.functions
    }

    /// A device with its channel, its registers and its functions.
    pub fn from_parts(channel: CommChannel, map: NamedMap<Register>, functions: NamedMap<Function>) -> (r:
        Self)
        ensures
            r.spec_channel() == channel,
            r.spec_map() == map,
            r.spec_functions() == functions,
    {
        RegisterSetting { channel, map, functions }
    }

    /// Makes a register setting of its configured parts. The address of
    /// each function is read among the registers `map`: its base may name
    /// one of them.
    pub fn new(channel: CommChannel, map: NamedMap<Register>, functions: Vec<FunctionConfig>) -> (r:
        Result<Self, Error>)
        ensures
            made_of(r, channel, map, functions@),
    {
        let ghost configs = functions@;
        let total = functions.len();
        let mut rest = functions;
        let mut made: NamedMap<Function> = NamedMap::new();
        let mut done: usize = 0;
        assert(configs.skip(0) =~= configs);
        while rest.len() > 0
            invariant
                done + rest@.len() == total,
                total == configs.len(),
                configs == functions@,
                rest@ == configs.skip(done as int),
                made.wf(),
                holds_functions(made.names(), made.values(), configs, map, done as nat),
                first_unresolved(configs, map) == match first_unresolved(rest@, map) {
                    Some(i) => Some(i + done),
                    None => None,
                },
            decreases rest@.len(),
        {
            let ghost waiting = rest@;
            let config = rest.remove(0);
            assert(config == configs[done as int]);
            assert(waiting[0] == config);
            assert(rest@ =~= configs.skip(done + 1));
            assert(configs.skip(done as int).drop_first() =~= configs.skip(done + 1));
            let FunctionConfig { name, addr, desc, map: value_map, writable, default } = config;
            let address = match Address::parse_named(addr.as_str(), &map) {
                Ok(address) => address,
                Err(e) => {
                    assert(parse_address_spec(config.addr@, Some(&map), None) is None);
                    assert(first_unresolved(waiting, map) == Some(0int));
                    assert(first_unresolved(configs, map) == Some(done as int));
                    return Err(e);
                },
            };
            assert(parse_address_spec(config.addr@, Some(&map), None) is Some);
            let function = Function::new(address, desc, value_map, writable, default);
            proof {
                lemma_holds_one_more(
                    made.names(),
                    made.values(),
                    configs,
                    map,
                    done as nat,
                    function,
                );
            }
            made.insert(name, function);
            done += 1;
        }
        Ok(RegisterSetting { channel, map, functions: made })
    }

    /// The channel of the device.
    pub fn channel(&self) -> (r: &CommChannel)
        ensures
            *r == self.spec_channel(),
    {
        &self.channel
    }

    /// The registers of the device.
    pub fn registers(&self) -> (r: &NamedMap<Register>)
        ensures
            *r == self.spec_map(),
    {
        &self.map
    }

    /// The functions of the device.
    pub fn functions(&self) -> (r: &NamedMap<Function>)
        ensures
            *r == self.spec_functions(),
    {
        &self.functions
    }

    /// Switches the pretending of the channel on or off.
    pub fn mock_mode(&mut self, mock: bool)
        ensures
            final(self).spec_channel() == old(self).spec_channel().with_mock(mock),
            final(self).spec_map() == old(self).spec_map(),
            final(self).spec_functions() == old(self).spec_functions(),
    {
        self.channel.mock_mode(mock);
    }
}

impl Fuseable for RegisterSetting {
    open spec fn is_dir_spec(&self, path: Seq<Seq<char>>) -> Result<bool, ErrorView> {
        if path.len() == 0 {
            Ok(true)
        } else if path[0] == "channel"@ {
            self.spec_channel().is_dir_spec(path.skip(1))
        } else if path[0] == "map"@ {
            is_dir_with_value_spec(self.spec_map(), path.skip(1))
        } else if path[0] == "functions"@ {
            is_dir_with_value_spec(self.spec_functions(), path.skip(1))
        } else {
            Err(ErrorView::NotFound(path[0]))
        }
    }

    open spec fn read_spec(&self, path: Seq<Seq<char>>) -> Result<ReadingView, ErrorView> {
        if path.len() == 0 {
            Ok(ReadingView::Entries(setting_fields()))
        } else if path[0] == "channel"@ {
            self.spec_channel().read_spec(path.skip(1))
        } else if path[0] == "map"@ {
            read_with_value_spec(self.spec_map(), path.skip(1), self.spec_channel())
        } else if path[0] == "functions"@ {
            read_with_value_spec(self.spec_functions(), path.skip(1), self.spec_channel())
        } else {
            Err(ErrorView::NotFound(path[0]))
        }
    }

    open spec fn write_spec(&self, path: Seq<Seq<char>>, value: Seq<u8>) -> Result<
        WritingView,
        ErrorView,
    > {
        if path.len() == 0 {
            Err(ErrorView::Unsupported("write"@, "RegisterSetting"@))
        } else if path[0] == "channel"@ {
            Err(ErrorView::Unsupported("write"@, "CommChannel"@))
        } else if path[0] == "map"@ {
            write_with_value_spec(self.spec_map(), path.skip(1), value, self.spec_channel())
        } else if path[0] == "functions"@ {
            write_with_value_spec(self.spec_functions(), path.skip(1), value, self.spec_channel())
        } else {
            Err(ErrorView::NotFound(path[0]))
        }
    }

    fn is_dir(&self, path: &[&str]) -> (r: Result<bool, Error>) {
        if path.len() == 0 {
            return Ok(true);
        }
        let rest = rest_of(path);
        if same_text(path[0], "channel") {
            self.channel.is_dir(rest)
        } else if same_text(path[0], "map") {
            is_dir_with_value(&self.map, rest)
        } else if same_text(path[0], "functions") {
            is_dir_with_value(&self.functions, rest)
        } else {
            Err(Error::NotFound(path[0].to_owned()))
        }
    }

    fn read<'a>(&'a self, path: &[&str]) -> (r: Result<Reading<'a>, Error>) {
        if path.len() == 0 {
            let names = entries_of(&["channel", "map", "functions"]);
            assert(names_view(names@) =~= setting_fields());
            return Ok(Reading::Entries(names));
        }
        let rest = rest_of(path);
        if same_text(path[0], "channel") {
            self.channel.read(rest)
        } else if same_text(path[0], "map") {
            read_with_value(&self.map, rest, &self.channel)
        } else if same_text(path[0], "functions") {
            read_with_value(&self.functions, rest, &self.channel)
        } else {
            Err(Error::NotFound(path[0].to_owned()))
        }
    }

    fn write(&self, path: &[&str], value: Vec<u8>) -> (r: Result<Writing, Error>) {
        if path.len() == 0 {
            return Err(Error::Unsupported("write".to_owned(), "RegisterSetting".to_owned()));
        }
        let rest = rest_of(path);
        if same_text(path[0], "channel") {
            Err(Error::Unsupported("write".to_owned(), "CommChannel".to_owned()))
        } else if same_text(path[0], "map") {
            write_with_value(&self.map, rest, value, &self.channel)
        } else if same_text(path[0], "functions") {
            write_with_value(&self.functions, rest, value, &self.channel)
        } else {
            Err(Error::NotFound(path[0].to_owned()))
        }
    }
}

} // verus!
