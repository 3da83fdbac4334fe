//! The requests that are made of Home Assistant, and what its answers mean.

use vstd::prelude::*;

use crate::degrees::Degrees;
use crate::entity::Entity;
use crate::states::{ids_ascending, last_of_id, States};
use crate::text::{concat, trim_end_slashes, without_end_slashes};

verus! {

/// A value in the data of a service call.
#[derive(Debug)]
pub enum Field {
    Text(String),
    Number(Degrees),
}

/// A value in the data of a service call.
pub enum FieldValue {
    Text(Seq<char>),
    Number(Degrees),
}

impl View for Field {
    type V = FieldValue;

    open spec fn view(&self) -> FieldValue {
        match self {
            Field::Text(text) => FieldValue::Text(text@),
            Field::Number(number) => FieldValue::Number(*number),
        }
    }
}

/// A call of a Home Assistant service, with the members of its data.
#[derive(Debug)]
pub struct ServiceCall {
    pub domain: &'static str,
    pub service: &'static str,
    pub data: Vec<(&'static str, Field)>,
}

/// A call of a service: its domain, its name and the members of its data.
pub struct Call {
    pub domain: Seq<char>,
    pub service: Seq<char>,
    pub data: Seq<(Seq<char>, FieldValue)>,
}

impl View for ServiceCall {
    type V = Call;

    open spec fn view(&self) -> Call {
        Call {
            domain: self.domain@,
            service: self.service@,
            data: self.data@.map_values(|member: (&'static str, Field)| (member.0@, member.1@)),
        }
    }
}

/// What is done with a service call.
#[derive(Debug)]
pub enum Dispatch {
    /// It is only reported.
    DryRun,
    /// Its data is posted to a URL.
    Post(String),
}

/// Why an answer is not accepted.
#[derive(Debug, Clone, Copy, PartialEq, Eq, Structural)]
pub enum Refusal {
    /// The access token is invalid or expired.
    Unauthorized,
    /// The answer has another status that is no success.
    Failed,
}

/// The statuses that mean success.
pub open spec fn success(status: u16) -> bool {
    200 <= status < 300
}

/// Why an answer with this status is not accepted.
pub open spec fn refusal(status: u16) -> Option<Refusal> {
    if success(status) {
        None
    } else if status == 401 {
        Some(Refusal::Unauthorized)
    } else {
        Some(Refusal::Failed)
    }
}

/// The service call that sets an HVAC mode.
pub open spec fn hvac_mode_call(entity_id: Seq<char>, mode: Seq<char>) -> Call {
    Call {
        domain: "climate"@,
        service: "set_hvac_mode"@,
        data: seq![
            ("entity_id"@, FieldValue::Text(entity_id)),
            ("hvac_mode"@, FieldValue::Text(mode)),
        ],
    }
}

/// The service call that sets a temperature under the name `field`.
pub open spec fn temperature_call(entity_id: Seq<char>, field: Seq<char>, value: Degrees) -> Call {
    Call {
        domain: "climate"@,
        service: "set_temperature"@,
        data: seq![
            ("entity_id"@, FieldValue::Text(entity_id)),
            (field, FieldValue::Number(value)),
        ],
    }
}

/// The service call that sets a preset.
pub open spec fn preset_call(entity_id: Seq<char>, preset: Seq<char>) -> Call {
    Call {
        domain: "climate"@,
        service: "set_preset_mode"@,
        data: seq![
            ("entity_id"@, FieldValue::Text(entity_id)),
            ("preset_mode"@, FieldValue::Text(preset)),
        ],
    }
}

/// The service call that switches something on or off.
pub open spec fn switch_call(entity_id: Seq<char>, on: bool) -> Call {
    Call {
        domain: "switch"@,
        service: if on {
            "turn_on"@
        } else {
            "turn_off"@
        },
        data: seq![("entity_id"@, FieldValue::Text(entity_id))],
    }
}

/// Where a Home Assistant instance is reached, and with which token.
#[derive(Debug)]
pub struct Address {
    base: String,
    token: String,
}

/// How a Home Assistant instance is addressed.
#[derive(Debug)]
pub struct HomeAssistant {
    pub address: Address,
    /// Whether service calls are only reported.
    pub dry_run: bool,
}

impl HomeAssistant {
    /// The base of every URL.
    pub closed spec fn base(self) -> Seq<char> {
        self.address.base@
    }

    /// The access token.
    pub closed spec fn bearer(self) -> Seq<char> {
        self.address.token@
    }

    /// An instance at a base URL, which may end in slashes.
    pub fn new(base: &str, token: String, dry_run: bool) -> (ha: Self)
        ensures
            ha.base() == without_end_slashes(base@),
            ha.bearer() == token@,
            ha.dry_run == dry_run,
    {
        HomeAssistant { address: Address { base: trim_end_slashes(base), token }, dry_run }
    }

    /// The access token, which goes with every request.
    pub fn token(&self) -> (token: &str)
        ensures
            token@ == self.bearer(),
    {
        self.address.token.as_str()
    }

    /// The URL that answers whether the base URL and the token are right.
    pub fn ping_url(&self) -> (url: String)
        ensures
            url@ == self.base() + "/api/"@,
    {
        concat(self.address.base.as_str(), "/api/")
    }

    /// The URL of the list of all entities.
    pub fn states_url(&self) -> (url: String)
        ensures
            url@ == self.base() + "/api/states"@,
    {
        concat(self.address.base.as_str(), "/api/states")
    }

    /// The URL of a service.
    pub fn service_url(&self, domain: &str, service: &str) -> (url: String)
        ensures
            url@ == self.base() + "/api/services/"@ + domain@ + "/"@ + service@,
    {
        let mut url = concat(self.address.base.as_str(), "/api/services/");
        url.append(domain);
        url.append("/");
        url.append(service);
        url
    }

    /// What the status of the answer to a ping means.
    pub fn ping(&self, status: u16) -> (verdict: Result<(), Refusal>)
        ensures
            match verdict {
                Ok(_) => refusal(status) is None,
                Err(r) => refusal(status) == Some(r),
            },
    {
        if status == 401 {
            Err(Refusal::Unauthorized)
        } else if 200 <= status && status < 300 {
            Ok(())
        } else {
            Err(Refusal::Failed)
        }
    }

    /// Files the entities of an answer by id, where its status means success. Of several
    /// entities with one id the last one stays.
    pub fn states(&self, status: u16, entities: Vec<Entity>) -> (states: Result<States, Refusal>)
        ensures
            match states {
                Ok(s) => {
                    &&& refusal(status) is None
                    &&& ids_ascending(s@)
                    &&& forall|e: Entity| #[trigger]
                        s@.contains(e) <==> exists|i: int| #[trigger]
                            last_of_id(entities@, i) && entities@[i] == e
                },
                Err(r) => refusal(status) == Some(r),
            },
    {
        match self.ping(status) {
            Ok(()) => Ok(States::new(entities)),
            Err(r) => Err(r),
        }
    }

    /// What is done with a service call: nothing but a report in a dry run, otherwise a post to
    /// the URL of the service.
    pub fn call_service(&self, call: &ServiceCall) -> (dispatch: Dispatch)
        ensures
            match dispatch {
                Dispatch::DryRun => self.dry_run,
                Dispatch::Post(url) => !self.dry_run && url@ == self.base() + "/api/services/"@
                    + call@.domain + "/"@ + call@.service,
            },
    {
        if self.dry_run {
            Dispatch::DryRun
        } else {
            Dispatch::Post(self.service_url(call.domain, call.service))
        }
    }

    /// Whether the status of the answer to a service call means success.
    pub fn service_accepted(&self, status: u16) -> (accepted: bool)
        ensures
            accepted == success(status),
    {
        200 <= status && status < 300
    }

    /// The call that sets the HVAC mode of a climate entity.
    pub fn set_hvac_mode(&self, entity_id: &str, mode: &str) -> (call: ServiceCall)
        ensures
            call@ == hvac_mode_call(entity_id@, mode@),
    {
        let mut data: Vec<(&'static str, Field)> = Vec::new();
        data.push(("entity_id", Field::Text(entity_id.to_string())));
        data.push(("hvac_mode", Field::Text(mode.to_string())));
        let call = ServiceCall { domain: "climate", service: "set_hvac_mode", data };
        assert(call@.data =~= hvac_mode_call(entity_id@, mode@).data);
        call
    }

    /// The call that sets a temperature of a climate entity.
    pub fn set_temperature(&self, entity_id: &str, field: &'static str, value: Degrees) -> (call: ServiceCall)
        ensures
            call@ == temperature_call(entity_id@, field@, value),
    {
        let mut data: Vec<(&'static str, Field)> = Vec::new();
        data.push(("entity_id", Field::Text(entity_id.to_string())));
        data.push((field, Field::Number(value)));
        let call = ServiceCall { domain: "climate", service: "set_temperature", data };
        assert(call@.data =~= temperature_call(entity_id@, field@, value).data);
        call
    }

    /// The call that sets the preset of a climate entity.
    pub fn set_preset_mode(&self, entity_id: &str, preset: &str) -> (call: ServiceCall)
        ensures
            call@ == preset_call(entity_id@, preset@),
    {
        let mut data: Vec<(&'static str, Field)> = Vec::new();
        data.push(("entity_id", Field::Text(entity_id.to_string())));
        data.push(("preset_mode", Field::Text(preset.to_string())));
        let call = ServiceCall { domain: "climate", service: "set_preset_mode", data };
        assert(call@.data =~= preset_call(entity_id@, preset@).data);
        call
    }

    /// The call that switches an entity on or off.
    pub fn switch(&self, entity_id: &str, on: bool) -> (call: ServiceCall)
        ensures
            call@ == switch_call(entity_id@, on),
    {
        let mut data: Vec<(&'static str, Field)> = Vec::new();
        data.push(("entity_id", Field::Text(entity_id.to_string())));
        let service = if on {
            "turn_on"
        } else {
            "turn_off"
        };
        let call = ServiceCall { domain: "switch", service, data };
        assert(call@.data =~= switch_call(entity_id@, on).data);
        call
    }
}

/// What a status means: from 200 to 299 success, 401 a token that is not accepted, and any other
/// a failure.
pub proof fn law_what_a_status_means(status: u16)
    ensures
        success(status) <==> refusal(status) is None,
        success(status) <==> status / 100 == 2,
        refusal(status) == Some(Refusal::Unauthorized) <==> status == 401,
        refusal(status) == Some(Refusal::Failed) <==> status / 100 != 2 && status != 401,
{
}

/// What the service calls for a thermostat carry: the entity, and the one value that is set under
/// its name, unchanged.
pub proof fn law_calls_carry_entity_and_value(
    entity_id: Seq<char>,
    text: Seq<char>,
    field: Seq<char>,
    value: Degrees,
)
    ensures
        hvac_mode_call(entity_id, text).domain == "climate"@,
        hvac_mode_call(entity_id, text).service == "set_hvac_mode"@,
        hvac_mode_call(entity_id, text).data.len() == 2,
        hvac_mode_call(entity_id, text).data[0] == ("entity_id"@, FieldValue::Text(entity_id)),
        hvac_mode_call(entity_id, text).data[1] == ("hvac_mode"@, FieldValue::Text(text)),
        preset_call(entity_id, text).domain == "climate"@,
        preset_call(entity_id, text).service == "set_preset_mode"@,
        preset_call(entity_id, text).data.len() == 2,
        preset_call(entity_id, text).data[0] == ("entity_id"@, FieldValue::Text(entity_id)),
        preset_call(entity_id, text).data[1] == ("preset_mode"@, FieldValue::Text(text)),
        temperature_call(entity_id, field, value).domain == "climate"@,
        temperature_call(entity_id, field, value).service == "set_temperature"@,
        temperature_call(entity_id, field, value).data.len() == 2,
        temperature_call(entity_id, field, value).data[0] == (
            "entity_id"@,
            FieldValue::Text(entity_id),
        ),
        temperature_call(entity_id, field, value).data[1] == (field, FieldValue::Number(value)),
{
}

/// Switching on and switching off are two services, and both carry the entity alone.
pub proof fn law_switching_carries_the_entity(entity_id: Seq<char>)
    ensures
        switch_call(entity_id, true).service == "turn_on"@,
        switch_call(entity_id, false).service == "turn_off"@,
        forall|on: bool|
            (#[trigger] switch_call(entity_id, on)).domain == "switch"@ && switch_call(
                entity_id,
                on,
            ).data == seq![("entity_id"@, FieldValue::Text(entity_id))],
{
}

/// A service call stands for what it spells out, member for member.
pub proof fn law_service_call_says_what_it_spells_out(call: ServiceCall, i: int)
    ensures
        call@.domain == call.domain@,
        call@.service == call.service@,
        call@.data.len() == call.data@.len(),
        0 <= i < call.data@.len() ==> call@.data[i].0 == call.data@[i].0@ && call@.data[i].1
            == match call.data@[i].1 {
            Field::Text(text) => FieldValue::Text(text@),
            Field::Number(number) => FieldValue::Number(number),
        },
{
}

} // verus!
