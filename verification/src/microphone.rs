//! Which microphone to record from, and in what format. Asking the system
//! for its devices happens outside; these functions decide from the answers.

use vstd::prelude::*;

verus! {

/// One microphone the app could record from.
#[derive(Clone, Debug)]
pub struct AudioDevice {
    pub name: String,
    /// True for the one the system would use if nothing were chosen.
    pub is_default: bool,
}

/// The microphones to list, one per name the system gave, each marked as
/// the default when its name is the default device's name.
pub fn audio_devices(names: &Vec<String>, default_name: &Option<String>) -> (devices: Vec<AudioDevice>)
    ensures
        devices@.len() == names@.len(),
        forall|i: int|
            0 <= i < names@.len() ==> {
                &&& (#[trigger] devices@[i]).name@ == names@[i]@
                &&& devices@[i].is_default == (default_name matches Some(d) && d@ == names@[i]@)
            },
{
    let mut devices: Vec<AudioDevice> = Vec::new();
    let mut i: usize = 0;
    while i < names.len()
        invariant
            i <= names@.len(),
            devices@.len() == i,
            forall|k: int|
                0 <= k < i ==> {
                    &&& (#[trigger] devices@[k]).name@ == names@[k]@
                    &&& devices@[k].is_default == (default_name matches Some(d) && d@ == names@[k]@)
                },
        decreases names@.len() - i,
    {
        let name = names[i].clone();
        let is_default = match default_name {
            Some(d) => *d == name,
            None => false,
        };
        devices.push(AudioDevice { name, is_default });
        i = i + 1;
    }
    devices
}

/// Which device to open, as an index into the devices the system listed.
#[derive(Clone, Copy, Debug, PartialEq, Eq, Structural)]
pub enum InputChoice {
    /// The one chosen in Settings.
    Chosen(usize),
    /// PipeWire's own device, which follows the system default and handles
    /// Bluetooth better than the raw devices behind it.
    Pipewire(usize),
    /// The system's own default device.
    SystemDefault,
}

/// The index of the first device whose name is `name`; the number of
/// devices when none is. A device whose name could not be read has `None`.
pub open spec fn first_named(names: Seq<Option<String>>, name: Seq<char>) -> int
    decreases names.len(),
{
    if names.len() == 0 {
        0
    } else if names[0] matches Some(n) && n@ == name {
        0
    } else {
        1 + first_named(names.drop_first(), name)
    }
}

proof fn lemma_first_named(names: Seq<Option<String>>, name: Seq<char>)
    ensures
        0 <= first_named(names, name) <= names.len(),
        first_named(names, name) < names.len() ==> (names[first_named(names, name)] matches Some(n) && n@ == name),
        forall|k: int| 0 <= k < first_named(names, name) ==> !(#[trigger] names[k] matches Some(n) && n@ == name),
    decreases names.len(),
{
    if names.len() > 0 && !(names[0] matches Some(n) && n@ == name) {
        let rest = names.drop_first();
        lemma_first_named(rest, name);
        assert forall|k: int| 0 <= k < first_named(names, name) implies !(#[trigger] names[k] matches Some(n) && n@ == name) by {
            if k > 0 {
                assert(names[k] == rest[k - 1]);
            }
        }
    }
}

/// The device to record from: the one chosen in Settings when it is
/// connected, else PipeWire's device when there is one, else the system's
/// own choice.
pub open spec fn input_choice(names: Seq<Option<String>>, wanted: Option<String>) -> InputChoice {
    let pipewire = first_named(names, "pipewire"@);
    match wanted {
        Some(w) if first_named(names, w@) < names.len() => InputChoice::Chosen(first_named(names, w@) as usize),
        _ => if pipewire < names.len() { InputChoice::Pipewire(pipewire as usize) } else { InputChoice::SystemDefault },
    }
}

/// `names[k]` is the device called `name`.
pub open spec fn is_named(names: Seq<Option<String>>, k: int, name: Seq<char>) -> bool {
    names[k] matches Some(n) && n@ == name
}

/// The microphone chosen in Settings wins whenever it is connected, whatever
/// else is listed, and the first device of that name is taken. Only when it
/// is not chosen or not connected does PipeWire's device come next, then the
/// system's own choice.
pub proof fn the_chosen_microphone_wins(names: Seq<Option<String>>, wanted: Option<String>)
    requires
        names.len() <= usize::MAX,
    ensures
        (wanted matches Some(w) && exists|k: int| 0 <= k < names.len() && #[trigger] is_named(names, k, w@)) ==> {
            &&& input_choice(names, wanted) matches InputChoice::Chosen(i)
            &&& 0 <= i < names.len()
            &&& is_named(names, i as int, wanted->0@)
            &&& forall|k: int| 0 <= k < i ==> !#[trigger] is_named(names, k, wanted->0@)
        },
        !(wanted matches Some(w) && exists|k: int| 0 <= k < names.len() && #[trigger] is_named(names, k, w@)) ==> {
            if exists|k: int| 0 <= k < names.len() && #[trigger] is_named(names, k, "pipewire"@) {
                &&& input_choice(names, wanted) matches InputChoice::Pipewire(i)
                &&& 0 <= i < names.len()
                &&& is_named(names, i as int, "pipewire"@)
                &&& forall|k: int| 0 <= k < i ==> !#[trigger] is_named(names, k, "pipewire"@)
            } else {
                input_choice(names, wanted) == InputChoice::SystemDefault
            }
        },
{
    lemma_first_named(names, "pipewire"@);
    let p = first_named(names, "pipewire"@);
    let any_pipewire = exists|k: int| 0 <= k < names.len() && #[trigger] is_named(names, k, "pipewire"@);
    assert(any_pipewire <==> p < names.len()) by {
        if p < names.len() {
            assert(is_named(names, p, "pipewire"@));
        }
        if any_pipewire {
            let k = choose|k: int| 0 <= k < names.len() && #[trigger] is_named(names, k, "pipewire"@);
            if p >= names.len() {
                assert(!is_named(names, k, "pipewire"@));
            }
        }
    }
    if p < names.len() {
        assert(is_named(names, p, "pipewire"@));
        assert forall|k: int| 0 <= k < p implies !#[trigger] is_named(names, k, "pipewire"@) by {}
    }
    match wanted {
        Some(w) => {
            lemma_first_named(names, w@);
            let f = first_named(names, w@);
            let found = exists|k: int| 0 <= k < names.len() && #[trigger] is_named(names, k, w@);
            assert(found <==> f < names.len()) by {
                if f < names.len() {
                    assert(is_named(names, f, w@));
                }
                if found {
                    let k = choose|k: int| 0 <= k < names.len() && #[trigger] is_named(names, k, w@);
                    if f >= names.len() {
                        assert(!is_named(names, k, w@));
                    }
                }
            }
            if f < names.len() {
                assert(input_choice(names, wanted) == InputChoice::Chosen(f as usize));
                assert(is_named(names, f, w@));
                assert forall|k: int| 0 <= k < f implies !#[trigger] is_named(names, k, w@) by {}
            } else if p < names.len() {
                assert(input_choice(names, wanted) == InputChoice::Pipewire(p as usize));
            } else {
                assert(input_choice(names, wanted) == InputChoice::SystemDefault);
            }
        },
        None => {
            if p < names.len() {
                assert(input_choice(names, wanted) == InputChoice::Pipewire(p as usize));
            } else {
                assert(input_choice(names, wanted) == InputChoice::SystemDefault);
            }
        },
    }
}

fn find_named(names: &Vec<Option<String>>, name: &String) -> (i: usize)
    ensures
        i == first_named(names@, name@),
{
    proof {
        lemma_first_named(names@, name@);
    }
    let mut i: usize = 0;
    while i < names.len()
        invariant
            i <= names@.len(),
            i <= first_named(names@, name@),
            0 <= first_named(names@, name@) <= names@.len(),
            first_named(names@, name@) < names@.len() ==> (names@[first_named(names@, name@)] matches Some(n) && n@ == name@),
        decreases names@.len() - i,
    {
        let hit = match &names[i] {
            Some(n) => *n == *name,
            None => false,
        };
        if hit {
            proof {
                if i < first_named(names@, name@) {
                    lemma_first_named(names@, name@);
                    assert(!(names@[i as int] matches Some(n) && n@ == name@));
                }
            }
            return i;
        }
        proof {
            if i == first_named(names@, name@) {
                assert(names@[i as int] matches Some(n) && n@ == name@);
            }
        }
        i = i + 1;
    }
    i
}

/// Picks the microphone to record from, given the names of the devices the
/// system lists (`None` where a name could not be read) and the name chosen
/// in Settings.
pub fn choose_input_device(names: &Vec<Option<String>>, wanted: &Option<String>) -> (choice: InputChoice)
    ensures
        choice == input_choice(names@, *wanted),
{
    match wanted {
        Some(w) => {
            let i = find_named(names, w);
            if i < names.len() {
                return InputChoice::Chosen(i);
            }
        },
        None => {},
    }
    let pipewire_name = "pipewire".to_owned();
    let p = find_named(names, &pipewire_name);
    if p < names.len() {
        InputChoice::Pipewire(p)
    } else {
        InputChoice::SystemDefault
    }
}


/// The sample format a device delivers.
#[derive(Clone, Copy, Debug, PartialEq, Eq, Structural)]
pub enum SampleKind {
    F32,
    I16,
    U16,
    Other,
}

/// One family of input formats a device supports: a sample format over a
/// range of sample rates.
#[derive(Clone, Copy, Debug)]
pub struct ConfigRange {
    pub min_sample_rate: u32,
    pub max_sample_rate: u32,
    pub format: SampleKind,
}

/// The sample rates tried, best first: the ones that work with most devices.
pub open spec fn preferred_rates() -> Seq<u32> {
    seq![48000u32, 44100u32, 16000u32, 32000u32, 96000u32]
}

/// Config `c` can deliver `kind` samples at `rate`.
pub open spec fn covers(c: ConfigRange, rate: u32, kind: SampleKind) -> bool {
    c.min_sample_rate <= rate <= c.max_sample_rate && c.format == kind
}

/// The index of the first config that can deliver `kind` at `rate`, or the
/// number of configs when none can.
pub open spec fn first_covering(configs: Seq<ConfigRange>, rate: u32, kind: SampleKind) -> int
    decreases configs.len(),
{
    if configs.len() == 0 {
        0
    } else if covers(configs[0], rate, kind) {
        0
    } else {
        1 + first_covering(configs.drop_first(), rate, kind)
    }
}

/// The config and rate to record with: the first of `rates` that some config
/// delivers, taking the first config that gives 32-bit floats at it, else the
/// first that gives 16-bit integers.
pub open spec fn config_for(configs: Seq<ConfigRange>, rates: Seq<u32>) -> Option<(usize, u32)>
    decreases rates.len(),
{
    if rates.len() == 0 {
        None
    } else {
        let rate = rates[0];
        let f = first_covering(configs, rate, SampleKind::F32);
        let g = first_covering(configs, rate, SampleKind::I16);
        if f < configs.len() {
            Some((f as usize, rate))
        } else if g < configs.len() {
            Some((g as usize, rate))
        } else {
            config_for(configs, rates.drop_first())
        }
    }
}

proof fn lemma_first_covering(configs: Seq<ConfigRange>, rate: u32, kind: SampleKind)
    ensures
        0 <= first_covering(configs, rate, kind) <= configs.len(),
        first_covering(configs, rate, kind) < configs.len() ==> covers(configs[first_covering(configs, rate, kind)], rate, kind),
        forall|k: int| 0 <= k < first_covering(configs, rate, kind) ==> !covers(#[trigger] configs[k], rate, kind),
    decreases configs.len(),
{
    if configs.len() > 0 && !covers(configs[0], rate, kind) {
        let rest = configs.drop_first();
        lemma_first_covering(rest, rate, kind);
        assert forall|k: int| 0 <= k < first_covering(configs, rate, kind) implies !covers(#[trigger] configs[k], rate, kind) by {
            if k > 0 {
                assert(configs[k] == rest[k - 1]);
            }
        }
    }
}

fn find_covering(configs: &Vec<ConfigRange>, rate: u32, kind: SampleKind) -> (i: usize)
    ensures
        i == first_covering(configs@, rate, kind),
{
    proof {
        lemma_first_covering(configs@, rate, kind);
    }
    let mut i: usize = 0;
    while i < configs.len()
        invariant
            i <= configs@.len(),
            i <= first_covering(configs@, rate, kind),
            0 <= first_covering(configs@, rate, kind) <= configs@.len(),
            first_covering(configs@, rate, kind) < configs@.len() ==> covers(configs@[first_covering(configs@, rate, kind)], rate, kind),
            forall|k: int| 0 <= k < first_covering(configs@, rate, kind) ==> !covers(#[trigger] configs@[k], rate, kind),
        decreases configs@.len() - i,
    {
        let c = configs[i];
        if c.min_sample_rate <= rate && rate <= c.max_sample_rate && c.format == kind {
            return i;
        }
        i = i + 1;
    }
    i
}

/// Config `c` can deliver samples the app reads, 32-bit floats or 16-bit
/// integers, at `rate`.
pub open spec fn delivers(c: ConfigRange, rate: u32) -> bool {
    covers(c, rate, SampleKind::F32) || covers(c, rate, SampleKind::I16)
}

proof fn lemma_config_for(configs: Seq<ConfigRange>, rates: Seq<u32>)
    requires
        configs.len() <= usize::MAX,
    ensures
        config_for(configs, rates) is None ==> forall|q: int, k: int|
            0 <= q < rates.len() && 0 <= k < configs.len() ==> !#[trigger] delivers(configs[k], rates[q]),
        config_for(configs, rates) matches Some((i, r)) ==> {
            &&& 0 <= i < configs.len()
            &&& exists|p: int| 0 <= p < rates.len() && rates[p] == r && forall|q: int, k: int|
                0 <= q < p && 0 <= k < configs.len() ==> !#[trigger] delivers(configs[k], rates[q])
            &&& (covers(configs[i as int], r, SampleKind::F32) || (covers(configs[i as int], r, SampleKind::I16)
                && forall|k: int| 0 <= k < configs.len() ==> !#[trigger] covers(configs[k], r, SampleKind::F32)))
            &&& forall|k: int| 0 <= k < i ==> !#[trigger] covers(configs[k], r, configs[i as int].format)
        },
    decreases rates.len(),
{
    if rates.len() > 0 {
        let rate = rates[0];
        lemma_first_covering(configs, rate, SampleKind::F32);
        lemma_first_covering(configs, rate, SampleKind::I16);
        let f = first_covering(configs, rate, SampleKind::F32);
        let g = first_covering(configs, rate, SampleKind::I16);
        let rest = rates.drop_first();
        lemma_config_for(configs, rest);
        let none_before = forall|q: int, k: int|
            0 <= q < 0 && 0 <= k < configs.len() ==> !#[trigger] delivers(configs[k], rates[q]);
        assert(none_before);
        if f < configs.len() {
            assert(configs[f].format == SampleKind::F32);
            assert(config_for(configs, rates) == Some((f as usize, rate)));
            assert(0 <= 0 < rates.len() && rates[0] == rate && none_before);
        } else if g < configs.len() {
            assert(configs[g].format == SampleKind::I16);
            assert(config_for(configs, rates) == Some((g as usize, rate)));
            assert forall|k: int| 0 <= k < configs.len() implies !#[trigger] covers(configs[k], rate, SampleKind::F32) by {
                if covers(configs[k], rate, SampleKind::F32) {
                    assert(k >= f);
                }
            }
            assert(0 <= 0 < rates.len() && rates[0] == rate && none_before);
        } else {
            assert(config_for(configs, rates) == config_for(configs, rest));
            assert forall|k: int| 0 <= k < configs.len() implies !#[trigger] delivers(configs[k], rate) by {
                if covers(configs[k], rate, SampleKind::F32) {
                    assert(k >= f);
                }
                if covers(configs[k], rate, SampleKind::I16) {
                    assert(k >= g);
                }
            }
            if config_for(configs, rest) is None {
                assert forall|q: int, k: int| 0 <= q < rates.len() && 0 <= k < configs.len() implies !#[trigger] delivers(
                    configs[k],
                    rates[q],
                ) by {
                    if q > 0 {
                        assert(rates[q] == rest[q - 1]);
                    }
                }
            }
            if let Some((_i, r)) = config_for(configs, rest) {
                let p = choose|p: int| 0 <= p < rest.len() && rest[p] == r && forall|q: int, k: int|
                    0 <= q < p && 0 <= k < configs.len() ==> !#[trigger] delivers(configs[k], rest[q]);
                assert(rates[p + 1] == r);
                let none_before_next = forall|q: int, k: int|
                    0 <= q < p + 1 && 0 <= k < configs.len() ==> !#[trigger] delivers(configs[k], rates[q]);
                assert(none_before_next) by {
                    assert forall|q: int, k: int| 0 <= q < p + 1 && 0 <= k < configs.len() implies !#[trigger] delivers(
                        configs[k],
                        rates[q],
                    ) by {
                        if q > 0 {
                            assert(rates[q] == rest[q - 1]);
                        }
                    }
                }
                assert(0 <= p + 1 < rates.len() && rates[p + 1] == r && none_before_next);
            }
        }
    }
}

/// The format picked is the first of 48, 44.1, 16, 32 and 96 kHz, in that
/// order, at which some config delivers samples the app reads; there, the
/// first config giving 32-bit floats, else the first giving 16-bit integers.
/// Nothing is picked only when no config delivers at any of those rates.
pub proof fn the_first_usable_preferred_rate_is_picked(configs: Seq<ConfigRange>)
    requires
        configs.len() <= usize::MAX,
    ensures
        config_for(configs, preferred_rates()) is None <==> forall|k: int| 0 <= k < configs.len() ==> {
            &&& !delivers(#[trigger] configs[k], 48000)
            &&& !delivers(configs[k], 44100)
            &&& !delivers(configs[k], 16000)
            &&& !delivers(configs[k], 32000)
            &&& !delivers(configs[k], 96000)
        },
        (exists|k: int| 0 <= k < configs.len() && #[trigger] delivers(configs[k], 48000)) ==> (config_for(configs, preferred_rates()) is Some && (config_for(configs, preferred_rates())->0).1 == 48000),
        (forall|k: int| 0 <= k < configs.len() ==> !#[trigger] delivers(configs[k], 48000)) && (exists|k: int|
            0 <= k < configs.len() && #[trigger] delivers(configs[k], 44100)) ==> (config_for(configs, preferred_rates()) is Some && (config_for(configs, preferred_rates())->0).1 == 44100),
        (forall|k: int| 0 <= k < configs.len() ==> !#[trigger] delivers(configs[k], 48000) && !delivers(configs[k], 44100))
            && (exists|k: int| 0 <= k < configs.len() && #[trigger] delivers(configs[k], 16000)) ==> (config_for(configs, preferred_rates()) is Some && (config_for(configs, preferred_rates())->0).1 == 16000),
        (forall|k: int|
            0 <= k < configs.len() ==> !#[trigger] delivers(configs[k], 48000) && !delivers(configs[k], 44100) && !delivers(
                configs[k],
                16000,
            )) && (exists|k: int| 0 <= k < configs.len() && #[trigger] delivers(configs[k], 32000)) ==> (config_for(configs, preferred_rates()) is Some && (config_for(configs, preferred_rates())->0).1 == 32000),
        (forall|k: int|
            0 <= k < configs.len() ==> !#[trigger] delivers(configs[k], 48000) && !delivers(configs[k], 44100) && !delivers(
                configs[k],
                16000,
            ) && !delivers(configs[k], 32000)) && (exists|k: int| 0 <= k < configs.len() && #[trigger] delivers(
            configs[k],
            96000,
        )) ==> (config_for(configs, preferred_rates()) is Some && (config_for(configs, preferred_rates())->0).1 == 96000),
        config_for(configs, preferred_rates()) matches Some((i, r)) ==> {
            &&& 0 <= i < configs.len()
            &&& delivers(configs[i as int], r)
            &&& (configs[i as int].format == SampleKind::F32 || forall|k: int|
                0 <= k < configs.len() ==> !#[trigger] covers(configs[k], r, SampleKind::F32))
            &&& forall|k: int| 0 <= k < i ==> !#[trigger] covers(configs[k], r, configs[i as int].format)
        },
{
    let rates = preferred_rates();
    lemma_config_for(configs, rates);
    let res = config_for(configs, rates);
    assert(rates[0] == 48000u32 && rates[1] == 44100u32 && rates[2] == 16000u32 && rates[3] == 32000u32
        && rates[4] == 96000u32 && rates.len() == 5);
    if res is None {
        assert forall|k: int| 0 <= k < configs.len() implies {
            &&& !delivers(#[trigger] configs[k], 48000)
            &&& !delivers(configs[k], 44100)
            &&& !delivers(configs[k], 16000)
            &&& !delivers(configs[k], 32000)
            &&& !delivers(configs[k], 96000)
        } by {
            assert(!delivers(configs[k], rates[0]));
            assert(!delivers(configs[k], rates[1]));
            assert(!delivers(configs[k], rates[2]));
            assert(!delivers(configs[k], rates[3]));
            assert(!delivers(configs[k], rates[4]));
        }
    }
    if let Some((i, r)) = res {
        let p = choose|p: int| 0 <= p < rates.len() && rates[p] == r && forall|q: int, k: int|
            0 <= q < p && 0 <= k < configs.len() ==> !#[trigger] delivers(configs[k], rates[q]);
        assert(delivers(configs[i as int], r));
        // Each rate before the one picked is delivered by no config.
        assert(p >= 1 ==> forall|k: int| 0 <= k < configs.len() ==> !#[trigger] delivers(configs[k], 48000)) by {
            if p >= 1 {
                assert forall|k: int| 0 <= k < configs.len() implies !#[trigger] delivers(configs[k], 48000) by {
                    assert(!delivers(configs[k], rates[0]));
                }
            }
        }
        assert(p >= 2 ==> forall|k: int| 0 <= k < configs.len() ==> !#[trigger] delivers(configs[k], 44100)) by {
            if p >= 2 {
                assert forall|k: int| 0 <= k < configs.len() implies !#[trigger] delivers(configs[k], 44100) by {
                    assert(!delivers(configs[k], rates[1]));
                }
            }
        }
        assert(p >= 3 ==> forall|k: int| 0 <= k < configs.len() ==> !#[trigger] delivers(configs[k], 16000)) by {
            if p >= 3 {
                assert forall|k: int| 0 <= k < configs.len() implies !#[trigger] delivers(configs[k], 16000) by {
                    assert(!delivers(configs[k], rates[2]));
                }
            }
        }
        assert(p >= 4 ==> forall|k: int| 0 <= k < configs.len() ==> !#[trigger] delivers(configs[k], 32000)) by {
            if p >= 4 {
                assert forall|k: int| 0 <= k < configs.len() implies !#[trigger] delivers(configs[k], 32000) by {
                    assert(!delivers(configs[k], rates[3]));
                }
            }
        }
        if configs[i as int].format != SampleKind::F32 {
            assert(!covers(configs[i as int], r, SampleKind::F32));
        }
    }
}

/// Picks a recording format known to behave, Bluetooth devices included:
/// 48 kHz, then 44.1, 16, 32 and 96 kHz, in 32-bit floats if the device
/// offers them at that rate and in 16-bit integers otherwise. `None` when
/// no config offers any of these, and the device's default is used.
pub fn pick_input_config(configs: &Vec<ConfigRange>) -> (picked: Option<(usize, u32)>)
    ensures
        picked == config_for(configs@, preferred_rates()),
        picked matches Some((i, rate)) ==> i < configs@.len() && configs@[i as int].min_sample_rate <= rate
            <= configs@[i as int].max_sample_rate,
{
    let rates: Vec<u32> = vec![48000u32, 44100u32, 16000u32, 32000u32, 96000u32];
    assert(rates@ =~= preferred_rates());
    assert(rates@.skip(0) =~= rates@);
    let mut r: usize = 0;
    while r < rates.len()
        invariant
            r <= rates@.len(),
            rates@ == preferred_rates(),
            config_for(configs@, preferred_rates()) == config_for(configs@, rates@.skip(r as int)),
        decreases rates@.len() - r,
    {
        let rate = rates[r];
        proof {
            lemma_first_covering(configs@, rate, SampleKind::F32);
            lemma_first_covering(configs@, rate, SampleKind::I16);
            assert(rates@.skip(r as int)[0] == rate);
            assert(rates@.skip(r as int).drop_first() =~= rates@.skip(r + 1));
        }
        let f = find_covering(configs, rate, SampleKind::F32);
        if f < configs.len() {
            return Some((f, rate));
        }
        let g = find_covering(configs, rate, SampleKind::I16);
        if g < configs.len() {
            return Some((g, rate));
        }
        r = r + 1;
    }
    assert(rates@.skip(r as int) =~= Seq::<u32>::empty());
    None
}

} // verus!
