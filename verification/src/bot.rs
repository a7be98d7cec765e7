//! The bridge's own account and the OneBot meta events it sends about
//! itself.
use vstd::prelude::*;
use crate::json::{Json, JsonV, json_fields_view, push_field};
use crate::text::{dec_nat, push_str, to_string, u64_to_string};

verus! {

/// The bot: its KOOK token and its own user id.
pub struct KookOnebot {
    pub token: String,
    pub self_id: u64,
}

/// The lifecycle event the bridge sends when a client connects, fields in
/// this order.
pub open spec fn lifecycle_text(self_id: u64, time: u64) -> Seq<char> {
    "{\"meta_event_type\":\"lifecycle\",\"post_type\":\"meta_event\",\"self_id\":"@ + dec_nat(
        self_id as nat,
    ) + ",\"sub_type\":\"connect\",\"time\":"@ + dec_nat(time as nat) + "}"@
}

/// The heartbeat event; its `time` is the decimal text of the time.
pub open spec fn heartbeat_json(self_id: u64, time: u64) -> JsonV {
    JsonV::Object(
        seq![
            ("time"@, JsonV::Str(dec_nat(time as nat))),
            ("self_id"@, JsonV::PosInt(self_id)),
            ("post_type"@, JsonV::Str("meta_event"@)),
            ("meta_event_type"@, JsonV::Str("heartbeat"@)),
            ("interval"@, JsonV::PosInt(5000)),
            (
                "status"@,
                JsonV::Object(seq![("online"@, JsonV::Bool(true)), ("good"@, JsonV::Bool(true))]),
            ),
        ],
    )
}

impl KookOnebot {
    /// The lifecycle (connect) event at `now` (seconds since the epoch).
    pub fn get_lifecycle_event(&self, now: u64) -> (r: String)
        ensures
            r@ == lifecycle_text(self.self_id, now),
    {
        let mut s = to_string(
            "{\"meta_event_type\":\"lifecycle\",\"post_type\":\"meta_event\",\"self_id\":",
        );
        let id = u64_to_string(self.self_id);
        push_str(&mut s, id.as_str());
        push_str(&mut s, ",\"sub_type\":\"connect\",\"time\":");
        let t = u64_to_string(now);
        push_str(&mut s, t.as_str());
        push_str(&mut s, "}");
        s
    }

    /// The heartbeat event at `now`.
    pub fn get_heartbeat_event(&self, now: u64) -> (r: Json)
        ensures
            r@ == heartbeat_json(self.self_id, now),
    {
        let mut st: Vec<(String, Json)> = Vec::new();
        push_field(&mut st, "online", Json::Bool(true));
        push_field(&mut st, "good", Json::Bool(true));
        let mut f: Vec<(String, Json)> = Vec::new();
        push_field(&mut f, "time", Json::Str(u64_to_string(now)));
        push_field(&mut f, "self_id", Json::PosInt(self.self_id));
        push_field(&mut f, "post_type", Json::str_of("meta_event"));
        push_field(&mut f, "meta_event_type", Json::str_of("heartbeat"));
        push_field(&mut f, "interval", Json::PosInt(5000));
        let ghost sv = json_fields_view(st@);
        push_field(&mut f, "status", Json::Object(st));
        assert(sv =~= seq![("online"@, JsonV::Bool(true)), ("good"@, JsonV::Bool(true))]);
        assert(json_fields_view(f@) =~= heartbeat_json(self.self_id, now)->Object_0);
        Json::Object(f)
    }
}

} // verus!
