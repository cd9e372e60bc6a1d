//! The control server's settings.
//!
//! What a file holds is read forgivingly: a field that is not of the right kind
//! counts as unset, and a file that cannot be read gives the defaults.

use crate::persistence::json::{bool_field, field_at, is_json, json_text, lemma_field_at_push,
    lemma_with_new_field, new_object, pretty, pretty_text, put_flag, put_number, put_text,
    read_bool, read_str, read_u64, str_field, u64_field, Field, Fields};
use crate::persistence::paths::str_opt;
use crate::text::{opt_view, same};
use vstd::prelude::*;

verus! {

/// Whether the control API is on, whether it takes input, and where it listens.
#[derive(Debug, Clone, PartialEq, Eq)]
pub struct ControlSettings {
    pub enabled: bool,
    pub allow_input: bool,
    /// The address to bind; the loopback address where there is none.
    pub bind_address: Option<String>,
    /// The port to listen on; one that the system picks where there is none.
    pub port: Option<u16>,
}

/// Control settings.
#[verifier::ext_equal]
pub struct SettingsView {
    pub enabled: bool,
    pub allow_input: bool,
    pub bind_address: Option<Seq<char>>,
    pub port: Option<u16>,
}

impl View for ControlSettings {
    type V = SettingsView;

    open spec fn view(&self) -> SettingsView {
        SettingsView {
            enabled: self.enabled,
            allow_input: self.allow_input,
            bind_address: opt_view(self.bind_address),
            port: self.port,
        }
    }
}

/// Everything off, nothing set.
pub open spec fn default_settings() -> SettingsView {
    SettingsView { enabled: false, allow_input: false, bind_address: None, port: None }
}

impl Default for ControlSettings {
    fn default() -> (r: ControlSettings)
        ensures
            r@ == default_settings(),
    {
        ControlSettings { enabled: false, allow_input: false, bind_address: None, port: None }
    }
}

/// The settings that fields of a file come to. Only the boolean `true` switches
/// something on, an address counts where it is `ip`, which is an IP address, and
/// a port where it is from 1 to 65535.
pub open spec fn coerced(
    enabled: Option<bool>,
    allow_input: Option<bool>,
    bind: Option<Seq<char>>,
    ip: Option<Seq<char>>,
    port: Option<u64>,
) -> SettingsView {
    SettingsView {
        enabled: enabled == Some(true),
        allow_input: allow_input == Some(true),
        bind_address: if bind == ip {
            bind
        } else {
            None
        },
        port: match port {
            Some(p) => if 1 <= p <= 65535 {
                Some(p as u16)
            } else {
                None
            },
            None => None,
        },
    }
}

/// Settings from the fields of a file. `ip` is the address that was found to
/// parse as an IP address, where one was: no other is taken.
pub fn from_fields(
    enabled: Option<bool>,
    allow_input: Option<bool>,
    bind: Option<String>,
    ip: Option<&str>,
    port: Option<u64>,
) -> (r: ControlSettings)
    ensures
        r@ == coerced(enabled, allow_input, opt_view(bind), str_opt(ip), port),
{
    let on = match enabled {
        Some(b) => b,
        None => false,
    };
    let input = match allow_input {
        Some(b) => b,
        None => false,
    };
    let bind_address = match (bind, ip) {
        (Some(b), Some(i)) => if same(b.as_str(), i) {
            Some(b)
        } else {
            None
        },
        _ => None,
    };
    let port = match port {
        Some(p) => if 1 <= p && p <= 65535 {
            Some(p as u16)
        } else {
            None
        },
        None => None,
    };
    ControlSettings { enabled: on, allow_input: input, bind_address, port }
}

/// The address that the text of a settings file asks for, to be held against
/// what an IP address is.
pub fn bind_candidate(text: &str) -> (r: Option<String>)
    ensures
        opt_view(r) == str_field(text@, "bindAddress"@),
{
    read_str(text, "bindAddress")
}

/// What the text of a settings file comes to: the defaults, where there is none
/// or it is no JSON.
pub open spec fn loaded(text: Option<Seq<char>>, ip: Option<Seq<char>>) -> SettingsView {
    match text {
        Some(t) => if json_text(t) {
            coerced(
                bool_field(t, "enabled"@),
                bool_field(t, "allowInput"@),
                str_field(t, "bindAddress"@),
                ip,
                u64_field(t, "port"@),
            )
        } else {
            default_settings()
        },
        None => default_settings(),
    }
}

/// The settings of the text of a settings file, or the defaults where the file
/// could not be read. `ip` is the address that the text asks for, where it
/// parses as an IP address.
pub fn load_from(text: Option<&str>, ip: Option<&str>) -> (r: ControlSettings)
    ensures
        r@ == loaded(str_opt(text), str_opt(ip)),
{
    match text {
        Some(t) => if is_json(t) {
            from_fields(
                read_bool(t, "enabled"),
                read_bool(t, "allowInput"),
                bind_candidate(t),
                ip,
                read_u64(t, "port"),
            )
        } else {
            ControlSettings::default()
        },
        None => ControlSettings::default(),
    }
}

/// The fields that settings are written as: an address or a port only where it
/// is set.
pub open spec fn settings_fields(s: SettingsView) -> Fields {
    let flags = seq![
        ("enabled"@, Field::Flag(s.enabled)),
        ("allowInput"@, Field::Flag(s.allow_input)),
    ];
    let bound = match s.bind_address {
        Some(a) => flags.push(("bindAddress"@, Field::Text(a))),
        None => flags,
    };
    match s.port {
        Some(p) => bound.push(("port"@, Field::Number(p as int))),
        None => bound,
    }
}

/// Whether a text says of each field what settings say.
pub open spec fn says(text: Seq<char>, s: SettingsView) -> bool {
    &&& json_text(text)
    &&& bool_field(text, "enabled"@) == Some(s.enabled)
    &&& bool_field(text, "allowInput"@) == Some(s.allow_input)
    &&& str_field(text, "bindAddress"@) == s.bind_address
    &&& u64_field(text, "port"@) == (match s.port {
        Some(p) => Some(p as u64),
        None => None,
    })
}

/// The keys are four.
proof fn lemma_settings_keys()
    ensures
        "enabled"@ != "allowInput"@,
        "enabled"@ != "bindAddress"@,
        "enabled"@ != "port"@,
        "allowInput"@ != "bindAddress"@,
        "allowInput"@ != "port"@,
        "bindAddress"@ != "port"@,
{
    reveal_strlit("enabled");
    reveal_strlit("allowInput");
    reveal_strlit("bindAddress");
    reveal_strlit("port");
    assert("enabled"@.len() == 7 && "allowInput"@.len() == 10 && "bindAddress"@.len() == 11
        && "port"@.len() == 4);
}

/// Each field is found under its key.
proof fn lemma_settings_fields(s: SettingsView)
    ensures
        field_at(settings_fields(s), "enabled"@) == Some(Field::Flag(s.enabled)),
        field_at(settings_fields(s), "allowInput"@) == Some(Field::Flag(s.allow_input)),
        field_at(settings_fields(s), "bindAddress"@) == (match s.bind_address {
            Some(a) => Some(Field::Text(a)),
            None => None,
        }),
        field_at(settings_fields(s), "port"@) == (match s.port {
            Some(p) => Some(Field::Number(p as int)),
            None => None,
        }),
{
    lemma_settings_keys();
    let f0: Fields = Seq::empty();
    let f1 = f0.push(("enabled"@, Field::Flag(s.enabled)));
    let f2 = f1.push(("allowInput"@, Field::Flag(s.allow_input)));
    let f3 = match s.bind_address {
        Some(a) => f2.push(("bindAddress"@, Field::Text(a))),
        None => f2,
    };
    assert(f2 =~= seq![
        ("enabled"@, Field::Flag(s.enabled)),
        ("allowInput"@, Field::Flag(s.allow_input)),
    ]);
    assert forall|k: Seq<char>| true implies #[trigger] field_at(settings_fields(s), k) == (if k
        == "enabled"@ {
        Some(Field::Flag(s.enabled))
    } else if k == "allowInput"@ {
        Some(Field::Flag(s.allow_input))
    } else if k == "bindAddress"@ && s.bind_address is Some {
        Some(Field::Text(s.bind_address->0))
    } else if k == "port"@ && s.port is Some {
        Some(Field::Number(s.port->0 as int))
    } else {
        None
    }) by {
        lemma_field_at_push(f0, "enabled"@, Field::Flag(s.enabled), k);
        lemma_field_at_push(f1, "allowInput"@, Field::Flag(s.allow_input), k);
        if let Some(a) = s.bind_address {
            lemma_field_at_push(f2, "bindAddress"@, Field::Text(a), k);
        }
        if let Some(p) = s.port {
            lemma_field_at_push(f3, "port"@, Field::Number(p as int), k);
        }
    }
}

/// The text that settings are kept as: indented, with nothing where a field is
/// not set.
pub fn settings_text(s: &ControlSettings) -> (r: String)
    ensures
        r@ == pretty_text(settings_fields(s@)),
        says(r@, s@),
{
    let ghost v = s@;
    let mut o = new_object();
    proof {
        lemma_settings_keys();
        lemma_settings_fields(v);
        let f0: Fields = Seq::empty();
        let f1 = f0.push(("enabled"@, Field::Flag(v.enabled)));
        let f2 = f1.push(("allowInput"@, Field::Flag(v.allow_input)));
        lemma_with_new_field(f0, "enabled"@, Field::Flag(v.enabled));
        lemma_field_at_push(f0, "enabled"@, Field::Flag(v.enabled), "allowInput"@);
        lemma_with_new_field(f1, "allowInput"@, Field::Flag(v.allow_input));
        assert forall|k: Seq<char>| k != "enabled"@ && k != "allowInput"@ implies #[trigger] field_at(
            f2,
            k,
        ) is None by {
            lemma_field_at_push(f0, "enabled"@, Field::Flag(v.enabled), k);
            lemma_field_at_push(f1, "allowInput"@, Field::Flag(v.allow_input), k);
        }
        assert(f2 =~= seq![
            ("enabled"@, Field::Flag(v.enabled)),
            ("allowInput"@, Field::Flag(v.allow_input)),
        ]);
        let f3 = match v.bind_address {
            Some(a) => f2.push(("bindAddress"@, Field::Text(a))),
            None => f2,
        };
        if let Some(a) = v.bind_address {
            lemma_with_new_field(f2, "bindAddress"@, Field::Text(a));
            lemma_field_at_push(f2, "bindAddress"@, Field::Text(a), "port"@);
        }
        if let Some(p) = v.port {
            lemma_with_new_field(f3, "port"@, Field::Number(p as int));
        }
    }
    put_flag(&mut o, "enabled", s.enabled);
    put_flag(&mut o, "allowInput", s.allow_input);
    if let Some(a) = &s.bind_address {
        put_text(&mut o, "bindAddress", a.as_str());
    }
    if let Some(p) = s.port {
        put_number(&mut o, "port", p as i64);
    }
    pretty(&o).unwrap()
}

/// Settings that were kept are loaded back, where the address that is set is an
/// IP address and the port that is set is not 0.
pub proof fn law_kept_settings_are_loaded(s: SettingsView, text: Seq<char>, ip: Option<Seq<char>>)
    requires
        says(text, s),
        s.bind_address is Some ==> ip == s.bind_address,
        s.port != Some(0u16),
    ensures
        loaded(Some(text), ip) == s,
{
}

/// No address is ever loaded but the one that the text asks for, and only where
/// it is an IP address.
pub proof fn law_no_other_address_is_loaded(text: Seq<char>, ip: Option<Seq<char>>)
    ensures
        loaded(Some(text), ip).bind_address matches Some(a) ==> ip == Some(a) && str_field(
            text,
            "bindAddress"@,
        ) == Some(a),
{
}

/// Where there is no file, or it is no JSON, the settings are the defaults.
pub proof fn law_unreadable_file_gives_defaults(text: Seq<char>, ip: Option<Seq<char>>)
    ensures
        loaded(None, ip) == default_settings(),
        !json_text(text) ==> loaded(Some(text), ip) == default_settings(),
{
}

/// Settings without any field are the defaults.
pub proof fn law_no_field_gives_defaults(ip: Option<Seq<char>>)
    ensures
        coerced(None, None, None, ip, None) == default_settings(),
{
}

/// Each setting is read by its own name: a switch is on only where its field is
/// true, and a port counts only where it is one.
pub proof fn law_settings_are_read_by_name(text: Seq<char>, ip: Option<Seq<char>>, p: u16)
    requires
        json_text(text),
    ensures
        ({
            let s = loaded(Some(text), ip);
            &&& s.enabled <==> bool_field(text, "enabled"@) == Some(true)
            &&& s.allow_input <==> bool_field(text, "allowInput"@) == Some(true)
            &&& s.port == Some(p) <==> p > 0 && u64_field(text, "port"@) == Some(p as u64)
            &&& ip is Some && str_field(text, "bindAddress"@) == ip ==> s.bind_address == ip
        }),
{
}

/// Control is off, and takes no input, until it is switched on.
pub proof fn law_control_is_off_by_default()
    ensures
        !default_settings().enabled,
        !default_settings().allow_input,
        default_settings().bind_address is None,
        default_settings().port is None,
{
}

} // verus!
