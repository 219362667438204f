//! The sensor: a model name and the devices that belong to it.

use vstd::prelude::*;
use crate::error::{Error, ErrorView};
use crate::fuseable::{
    entries_of, names_view, rest_of, Fuseable, Reading, ReadingView, Writing, WritingView,
};
use crate::named_map::NamedMap;
use crate::setting::RegisterSetting;
use crate::text::same_text;

verus! {

/// A sensor with its devices.
#[derive(Debug)]
pub struct Sensor {
    pub(crate) model: String,
    pub(crate) registers: NamedMap<RegisterSetting>,
}

/// The names of what a sensor holds.
pub open spec fn sensor_fields() -> Seq<Seq<char>> {
    seq!["model"@, "registers"@]
}

/// Whether `after` is `before` with the pretending of its channel switched
/// to `mock`.
pub open spec fn mocked_setting(after: RegisterSetting, before: RegisterSetting, mock: bool) -> bool {
    &&& after.spec_channel() == before.spec_channel().with_mock(mock)
    &&& after.spec_map() == before.spec_map()
    &&& after.spec_functions() == before.spec_functions()
}

impl Sensor {
    /// The name of the model.
    pub closed spec fn spec_model(&self) -> String {
        self.model
    }

    /// The devices by name.
    pub closed spec fn spec_registers(&self) -> NamedMap<RegisterSetting> {
        self.registers
    }

    /// A sensor of the model `model` with the devices `registers`.
    pub fn new(model: String, registers: NamedMap<RegisterSetting>) -> (r: Self)
        ensures
            r.spec_model() == model,
            r.spec_registers() == registers,
    {
        Sensor { model, registers }
    }

    /// The devices by name.
    pub fn registers(&self) -> (r: &NamedMap<RegisterSetting>)
        ensures
            *r == self.spec_registers(),
    {
        &self.registers
    }

    /// Switches the pretending of every channel on or off.
    pub fn mocked(&mut self, mock: bool)
        ensures
            final(self).spec_model() == old(self).spec_model(),
            final(self).spec_registers().names() == old(self).spec_registers().names(),
            final(self).spec_registers().values().len() == old(
                self,
            ).spec_registers().values().len(),
            forall|i: int|
                0 <= i < old(self).spec_registers().values().len() ==> mocked_setting(
                    #[trigger] final(self).spec_registers().values()[i],
                    old(self).spec_registers().values()[i],
                    mock,
                ),
    {
        let mut taken: NamedMap<RegisterSetting> = NamedMap::new();
        core::mem::swap(&mut self.registers, &mut taken);
        let ghost before = taken.values();
        let (names, mut rest) = taken.into_parts();
        let mut changed: Vec<RegisterSetting> = Vec::new();
        assert(before.skip(0) =~= before);
        while rest.len() > 0
            invariant
                changed@.len() + rest@.len() == before.len(),
                rest@ == before.skip(changed@.len() as int),
                forall|i: int|
                    0 <= i < changed@.len() ==> mocked_setting(
                        #[trigger] changed@[i],
                        before[i],
                        mock,
                    ),
            decreases rest@.len(),
        {
            let ghost done = changed@.len();
            let mut setting = rest.remove(0);
            assert(rest@ =~= before.skip(done as int + 1));
            setting.mock_mode(mock);
            changed.push(setting);
        }
        self.registers = NamedMap::from_parts(names, changed);
    }
}

impl Fuseable for Sensor {
    open spec fn is_dir_spec(&self, path: Seq<Seq<char>>) -> Result<bool, ErrorView> {
        if path.len() == 0 {
            Ok(true)
        } else if path[0] == "model"@ {
            self.spec_model().is_dir_spec(path.skip(1))
        } else if path[0] == "registers"@ {
            self.spec_registers().is_dir_spec(path.skip(1))
        } else {
            Err(ErrorView::NotFound(path[0]))
        }
    }

    open spec fn read_spec(&self, path: Seq<Seq<char>>) -> Result<ReadingView, ErrorView> {
        if path.len() == 0 {
            Ok(ReadingView::Entries(sensor_fields()))
        } else if path[0] == "model"@ {
            self.spec_model().read_spec(path.skip(1))
        } else if path[0] == "registers"@ {
            self.spec_registers().read_spec(path.skip(1))
        } else {
            Err(ErrorView::NotFound(path[0]))
        }
    }

    open spec fn write_spec(&self, path: Seq<Seq<char>>, value: Seq<u8>) -> Result<
        WritingView,
        ErrorView,
    > {
        if path.len() == 0 {
            Err(ErrorView::Unsupported("write"@, "Sensor"@))
        } else if path[0] == "model"@ {
            Err(ErrorView::ReadOnly)
        } else if path[0] == "registers"@ {
            self.spec_registers().write_spec(path.skip(1), value)
        } else {
            Err(ErrorView::NotFound(path[0]))
        }
    }

    fn is_dir(&self, path: &[&str]) -> (r: Result<bool, Error>) {
        if path.len() == 0 {
            return Ok(true);
        }
        let rest = rest_of(path);
        if same_text(path[0], "model") {
            self.model.is_dir(rest)
        } else if same_text(path[0], "registers") {
            self.registers.is_dir(rest)
        } else {
            Err(Error::NotFound(path[0].to_owned()))
        }
    }

    fn read<'a>(&'a self, path: &[&str]) -> (r: Result<Reading<'a>, Error>) {
        if path.len() == 0 {
            let names = entries_of(&["model", "registers"]);
            assert(names_view(names@) =~= sensor_fields());
            return Ok(Reading::Entries(names));
        }
        let rest = rest_of(path);
        if same_text(path[0], "model") {
            self.model.read(rest)
        } else if same_text(path[0], "registers") {
            self.registers.read(rest)
        } else {
            Err(Error::NotFound(path[0].to_owned()))
        }
    }

    fn write(&self, path: &[&str], value: Vec<u8>) -> (r: Result<Writing, Error>) {
        if path.len() == 0 {
            return Err(Error::Unsupported("write".to_owned(), "Sensor".to_owned()));
        }
        let rest = rest_of(path);
        if same_text(path[0], "model") {
            Err(Error::ReadOnly)
        } else if same_text(path[0], "registers") {
            self.registers.write(rest, value)
        } else {
            Err(Error::NotFound(path[0].to_owned()))
        }
    }
}

} // verus!
