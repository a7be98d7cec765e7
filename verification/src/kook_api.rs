//! The KOOK HTTP API as this bridge uses it: addresses and headers, request
//! bodies, and what is read out of the replies.
use vstd::prelude::*;
use crate::json::{
    Json, JsonV, ShapeError, json_fields_view, json_seq_view, json_view, lemma_seq_view, push_field,
    str_member, i64_member, u64_member, bool_member, array_member, member, int_v,
};
use crate::text::{parse_u64, parse_u64_spec, push_str, str_eq, to_string, u64_to_string, dec_nat};

verus! {

/// A OneBot group (a KOOK channel).
pub struct GroupInfo {
    pub group_id: u64,
    pub group_name: String,
    pub member_count: i32,
    pub max_member_count: i32,
}

/// The bot's own account.
pub struct LoginInfo {
    pub user_id: u64,
    pub nickname: String,
}

/// Another user, as OneBot describes a stranger.
pub struct StrangerInfo {
    pub user_id: u64,
    pub nickname: String,
    pub sex: String,
    pub age: i32,
}

/// A OneBot friend (a KOOK user the bot has a private chat with).
pub struct FriendInfo {
    pub user_id: u64,
    pub nickname: String,
    pub remark: String,
}

/// A member of a OneBot group, as far as KOOK tells.
pub struct GroupMemberInfo {
    pub group_id: u64,
    pub user_id: u64,
    pub nickname: String,
    pub card: String,
    pub sex: String,
    pub age: i32,
    pub area: String,
    pub join_time: i32,
    pub last_sent_time: i32,
    pub level: String,
    pub role: String,
    pub unfriendly: bool,
    pub title: String,
    pub title_expire_time: i32,
    pub card_changeable: bool,
}

pub open spec fn i32_v(i: i32) -> JsonV {
    int_v(i as i64)
}

pub open spec fn group_info_json(g: GroupInfo) -> JsonV {
    JsonV::Object(
        seq![
            ("group_id"@, JsonV::PosInt(g.group_id)),
            ("group_name"@, JsonV::Str(g.group_name@)),
            ("member_count"@, i32_v(g.member_count)),
            ("max_member_count"@, i32_v(g.max_member_count)),
        ],
    )
}

pub open spec fn login_info_json(l: LoginInfo) -> JsonV {
    JsonV::Object(seq![("user_id"@, JsonV::PosInt(l.user_id)), ("nickname"@, JsonV::Str(l.nickname@))])
}

pub open spec fn stranger_info_json(s: StrangerInfo) -> JsonV {
    JsonV::Object(
        seq![
            ("user_id"@, JsonV::PosInt(s.user_id)),
            ("nickname"@, JsonV::Str(s.nickname@)),
            ("sex"@, JsonV::Str(s.sex@)),
            ("age"@, i32_v(s.age)),
        ],
    )
}

pub open spec fn friend_info_json(f: FriendInfo) -> JsonV {
    JsonV::Object(
        seq![
            ("user_id"@, JsonV::PosInt(f.user_id)),
            ("nickname"@, JsonV::Str(f.nickname@)),
            ("remark"@, JsonV::Str(f.remark@)),
        ],
    )
}

pub open spec fn member_info_json(m: GroupMemberInfo) -> JsonV {
    JsonV::Object(
        seq![
            ("group_id"@, JsonV::PosInt(m.group_id)),
            ("user_id"@, JsonV::PosInt(m.user_id)),
            ("nickname"@, JsonV::Str(m.nickname@)),
            ("card"@, JsonV::Str(m.card@)),
            ("sex"@, JsonV::Str(m.sex@)),
            ("age"@, i32_v(m.age)),
            ("area"@, JsonV::Str(m.area@)),
            ("join_time"@, i32_v(m.join_time)),
            ("last_sent_time"@, i32_v(m.last_sent_time)),
            ("level"@, JsonV::Str(m.level@)),
            ("role"@, JsonV::Str(m.role@)),
            ("unfriendly"@, JsonV::Bool(m.unfriendly)),
            ("title"@, JsonV::Str(m.title@)),
            ("title_expire_time"@, i32_v(m.title_expire_time)),
            ("card_changeable"@, JsonV::Bool(m.card_changeable)),
        ],
    )
}

fn str_json(s: &String) -> (r: Json)
    ensures
        r@ == JsonV::Str(s@),
{
    Json::Str(s.clone())
}

impl GroupInfo {
    /// The group as OneBot writes it.
    pub fn to_json(&self) -> (r: Json)
        ensures
            r@ == group_info_json(*self),
    {
        let mut f: Vec<(String, Json)> = Vec::new();
        push_field(&mut f, "group_id", Json::PosInt(self.group_id));
        push_field(&mut f, "group_name", str_json(&self.group_name));
        push_field(&mut f, "member_count", Json::from_i64(self.member_count as i64));
        push_field(&mut f, "max_member_count", Json::from_i64(self.max_member_count as i64));
        assert(json_fields_view(f@) =~= group_info_json(*self)->Object_0);
        Json::Object(f)
    }
}

impl LoginInfo {
    /// The account as OneBot writes it.
    pub fn to_json(&self) -> (r: Json)
        ensures
            r@ == login_info_json(*self),
    {
        let mut f: Vec<(String, Json)> = Vec::new();
        push_field(&mut f, "user_id", Json::PosInt(self.user_id));
        push_field(&mut f, "nickname", str_json(&self.nickname));
        assert(json_fields_view(f@) =~= login_info_json(*self)->Object_0);
        Json::Object(f)
    }
}

impl StrangerInfo {
    /// The user as OneBot writes it.
    pub fn to_json(&self) -> (r: Json)
        ensures
            r@ == stranger_info_json(*self),
    {
        let mut f: Vec<(String, Json)> = Vec::new();
        push_field(&mut f, "user_id", Json::PosInt(self.user_id));
        push_field(&mut f, "nickname", str_json(&self.nickname));
        push_field(&mut f, "sex", str_json(&self.sex));
        push_field(&mut f, "age", Json::from_i64(self.age as i64));
        assert(json_fields_view(f@) =~= stranger_info_json(*self)->Object_0);
        Json::Object(f)
    }
}

impl FriendInfo {
    /// The friend as OneBot writes it.
    pub fn to_json(&self) -> (r: Json)
        ensures
            r@ == friend_info_json(*self),
    {
        let mut f: Vec<(String, Json)> = Vec::new();
        push_field(&mut f, "user_id", Json::PosInt(self.user_id));
        push_field(&mut f, "nickname", str_json(&self.nickname));
        push_field(&mut f, "remark", str_json(&self.remark));
        assert(json_fields_view(f@) =~= friend_info_json(*self)->Object_0);
        Json::Object(f)
    }
}

impl GroupMemberInfo {
    /// The member as OneBot writes it.
    pub fn to_json(&self) -> (r: Json)
        ensures
            r@ == member_info_json(*self),
    {
        let mut f: Vec<(String, Json)> = Vec::new();
        push_field(&mut f, "group_id", Json::PosInt(self.group_id));
        push_field(&mut f, "user_id", Json::PosInt(self.user_id));
        push_field(&mut f, "nickname", str_json(&self.nickname));
        push_field(&mut f, "card", str_json(&self.card));
        push_field(&mut f, "sex", str_json(&self.sex));
        push_field(&mut f, "age", Json::from_i64(self.age as i64));
        push_field(&mut f, "area", str_json(&self.area));
        push_field(&mut f, "join_time", Json::from_i64(self.join_time as i64));
        push_field(&mut f, "last_sent_time", Json::from_i64(self.last_sent_time as i64));
        push_field(&mut f, "level", str_json(&self.level));
        push_field(&mut f, "role", str_json(&self.role));
        push_field(&mut f, "unfriendly", Json::Bool(self.unfriendly));
        push_field(&mut f, "title", str_json(&self.title));
        push_field(&mut f, "title_expire_time", Json::from_i64(self.title_expire_time as i64));
        push_field(&mut f, "card_changeable", Json::Bool(self.card_changeable));
        assert(json_fields_view(f@) =~= member_info_json(*self)->Object_0);
        Json::Object(f)
    }

    /// A copy of the member.
    pub fn copy(&self) -> (r: GroupMemberInfo)
        ensures
            r.group_id == self.group_id,
            r.user_id == self.user_id,
            r.nickname@ == self.nickname@,
            r.card@ == self.card@,
            r.sex@ == self.sex@,
            r.age == self.age,
            r.area@ == self.area@,
            r.join_time == self.join_time,
            r.last_sent_time == self.last_sent_time,
            r.level@ == self.level@,
            r.role@ == self.role@,
            r.unfriendly == self.unfriendly,
            r.title@ == self.title@,
            r.title_expire_time == self.title_expire_time,
            r.card_changeable == self.card_changeable,
            member_info_json(r) == member_info_json(*self),
    {
        GroupMemberInfo {
            group_id: self.group_id,
            user_id: self.user_id,
            nickname: self.nickname.clone(),
            card: self.card.clone(),
            sex: self.sex.clone(),
            age: self.age,
            area: self.area.clone(),
            join_time: self.join_time,
            last_sent_time: self.last_sent_time,
            level: self.level.clone(),
            role: self.role.clone(),
            unfriendly: self.unfriendly,
            title: self.title.clone(),
            title_expire_time: self.title_expire_time,
            card_changeable: self.card_changeable,
        }
    }
}

/// A KOOK reply: the base URL of KOOK's API, followed by `path`.
pub open spec fn api_url_spec(path: Seq<char>) -> Seq<char> {
    "https://www.kookapp.cn/api/v3"@ + path
}

/// The full address of a KOOK API call.
pub fn api_url(path: &str) -> (r: String)
    ensures
        r@ == api_url_spec(path@),
{
    let mut s = to_string("https://www.kookapp.cn/api/v3");
    push_str(&mut s, path);
    s
}

/// The `Authorization` header of a KOOK API call: `Bot <token>`.
pub fn auth_header(token: &str) -> (r: String)
    ensures
        r@ == "Bot "@ + token@,
{
    let mut s = to_string("Bot ");
    push_str(&mut s, token);
    s
}

/// The `data` member of a KOOK reply: what a call gives back.
pub fn reply_data(reply: &Json) -> (r: Result<Json, ShapeError>)
    ensures
        match r {
            Ok(d) => member(reply@, "data"@) == Ok::<JsonV, ShapeError>(d@),
            Err(e) => member(reply@, "data"@) == Err::<JsonV, ShapeError>(e),
        },
{
    match reply.member("data") {
        Ok(d) => Ok(d.deep_clone()),
        Err(e) => Err(e),
    }
}

/// An id and a name read from a reply: the string members `id_key` and
/// `name_key`, then the id read as a number.
pub open spec fn id_name_spec(d: JsonV, id_key: Seq<char>, name_key: Seq<char>) -> Result<
    (u64, Seq<char>),
    ShapeError,
> {
    match str_member(d, id_key) {
        Err(e) => Err(e),
        Ok(id) => match str_member(d, name_key) {
            Err(e) => Err(e),
            Ok(name) => match parse_u64_spec(id) {
                None => Err(ShapeError::BadNumber),
                Some(n) => Ok((n, name)),
            },
        },
    }
}

fn read_id_name(d: &Json, id_key: &str, name_key: &str) -> (r: Result<(u64, String), ShapeError>)
    ensures
        match r {
            Ok((n, name)) => id_name_spec(d@, id_key@, name_key@) == Ok::<
                (u64, Seq<char>),
                ShapeError,
            >((n, name@)),
            Err(e) => id_name_spec(d@, id_key@, name_key@) == Err::<(u64, Seq<char>), ShapeError>(
                e,
            ),
        },
{
    let id = match d.str_member(id_key) {
        Ok(s) => s,
        Err(e) => return Err(e),
    };
    let name = match d.str_member(name_key) {
        Ok(s) => s,
        Err(e) => return Err(e),
    };
    match parse_u64(id.as_str()) {
        None => Err(ShapeError::BadNumber),
        Some(n) => Ok((n, name)),
    }
}

/// The bot's account from the reply data of `/user/me`.
pub fn parse_login_info(d: &Json) -> (r: Result<LoginInfo, ShapeError>)
    ensures
        match r {
            Ok(l) => id_name_spec(d@, "id"@, "username"@) == Ok::<(u64, Seq<char>), ShapeError>(
                (l.user_id, l.nickname@),
            ),
            Err(e) => id_name_spec(d@, "id"@, "username"@) == Err::<(u64, Seq<char>), ShapeError>(
                e,
            ),
        },
{
    match read_id_name(d, "id", "username") {
        Ok((user_id, nickname)) => Ok(LoginInfo { user_id, nickname }),
        Err(e) => Err(e),
    }
}

/// A user from the reply data of `/user/view`; KOOK tells neither sex nor
/// age, so they are `unknown` and 0.
pub fn parse_stranger_info(d: &Json) -> (r: Result<StrangerInfo, ShapeError>)
    ensures
        match r {
            Ok(s) => id_name_spec(d@, "id"@, "username"@) == Ok::<(u64, Seq<char>), ShapeError>(
                (s.user_id, s.nickname@),
            ) && s.sex@ == "unknown"@ && s.age == 0,
            Err(e) => id_name_spec(d@, "id"@, "username"@) == Err::<(u64, Seq<char>), ShapeError>(
                e,
            ),
        },
{
    match read_id_name(d, "id", "username") {
        Ok((user_id, nickname)) => Ok(
            StrangerInfo { user_id, nickname, sex: to_string("unknown"), age: 0 },
        ),
        Err(e) => Err(e),
    }
}

/// A group from the reply data of `/channel/view`; its member counts are 0.
pub fn parse_group_info(d: &Json) -> (r: Result<GroupInfo, ShapeError>)
    ensures
        match r {
            Ok(g) => id_name_spec(d@, "id"@, "name"@) == Ok::<(u64, Seq<char>), ShapeError>(
                (g.group_id, g.group_name@),
            ) && g.member_count == 0 && g.max_member_count == 0,
            Err(e) => id_name_spec(d@, "id"@, "name"@) == Err::<(u64, Seq<char>), ShapeError>(e),
        },
{
    match read_id_name(d, "id", "name") {
        Ok((group_id, group_name)) => Ok(
            GroupInfo { group_id, group_name, member_count: 0, max_member_count: 0 },
        ),
        Err(e) => Err(e),
    }
}

/// What one channel of a channel list gives: a group for a text channel
/// (type 1) that is not a category, nothing for the others.
pub open spec fn channel_entry(it: JsonV) -> Result<Option<(u64, Seq<char>)>, ShapeError> {
    match str_member(it, "id"@) {
        Err(e) => Err(e),
        Ok(id) => match str_member(it, "name"@) {
            Err(e) => Err(e),
            Ok(name) => match i64_member(it, "type"@) {
                Err(e) => Err(e),
                Ok(tp) => match bool_member(it, "is_category"@) {
                    Err(e) => Err(e),
                    Ok(is_category) => if !is_category && tp == 1 {
                        match parse_u64_spec(id) {
                            None => Err(ShapeError::BadNumber),
                            Some(n) => Ok(Some((n, name))),
                        }
                    } else {
                        Ok(None)
                    },
                },
            },
        },
    }
}

/// The groups of a channel list, in order; the first malformed channel is
/// the error.
pub open spec fn channels_spec(items: Seq<JsonV>) -> Result<Seq<(u64, Seq<char>)>, ShapeError>
    decreases items.len(),
{
    if items.len() == 0 {
        Ok(Seq::empty())
    } else {
        match channels_spec(items.drop_last()) {
            Err(e) => Err(e),
            Ok(gs) => match channel_entry(items.last()) {
                Err(e) => Err(e),
                Ok(None) => Ok(gs),
                Ok(Some(g)) => Ok(gs.push(g)),
            },
        }
    }
}

pub open spec fn channel_list_spec(d: JsonV) -> Result<Seq<(u64, Seq<char>)>, ShapeError> {
    match array_member(d, "items"@) {
        Err(e) => Err(e),
        Ok(items) => channels_spec(items),
    }
}

pub open spec fn groups_view(v: Seq<GroupInfo>) -> Seq<(u64, Seq<char>)> {
    v.map_values(|g: GroupInfo| (g.group_id, g.group_name@))
}

/// The text channels of a channel list (the reply data of `/channel/list`)
/// as groups with member counts 0.
pub fn parse_channel_list(d: &Json) -> (r: Result<Vec<GroupInfo>, ShapeError>)
    ensures
        match r {
            Ok(v) => channel_list_spec(d@) == Ok::<Seq<(u64, Seq<char>)>, ShapeError>(
                groups_view(v@),
            ) && forall|i: int| 0 <= i < v@.len() ==> #[trigger] v@[i].member_count == 0
                && v@[i].max_member_count == 0,
            Err(e) => channel_list_spec(d@) == Err::<Seq<(u64, Seq<char>)>, ShapeError>(e),
        },
{
    let items = match d.array_member("items") {
        Ok(a) => a,
        Err(e) => return Err(e),
    };
    let ghost iv = json_seq_view(items@);
    proof {
        lemma_seq_view(items@);
        assert(iv.take(0) =~= Seq::<JsonV>::empty());
    }
    let mut ret_arr: Vec<GroupInfo> = Vec::new();
    assert(groups_view(ret_arr@) =~= Seq::<(u64, Seq<char>)>::empty());
    let n = items.len();
    let mut i: usize = 0;
    while i < n
        invariant
            n == items@.len(),
            i <= n,
            iv == json_seq_view(items@),
            iv.len() == n,
            forall|k: int| 0 <= k < n ==> #[trigger] iv[k] == json_view(items@[k]),
            channel_list_spec(d@) == channels_spec(iv),
            channels_spec(iv.take(i as int)) == Ok::<Seq<(u64, Seq<char>)>, ShapeError>(
                groups_view(ret_arr@),
            ),
            forall|k: int| 0 <= k < ret_arr@.len() ==> #[trigger] ret_arr@[k].member_count == 0
                && ret_arr@[k].max_member_count == 0,
        decreases n - i,
    {
        let it = &items[i];
        proof {
            assert(iv.take(i + 1).drop_last() =~= iv.take(i as int));
            assert(iv.take(i + 1).last() == it@);
        }
        let ghost pre = channels_spec(iv.take(i as int));
        let step = read_channel(it);
        match step {
            Err(e) => {
                proof {
                    assert(channels_spec(iv.take(i + 1)) == Err::<Seq<(u64, Seq<char>)>, ShapeError>(e));
                    lemma_channels_err(iv, i + 1);
                }
                return Err(e);
            },
            Ok(None) => {},
            Ok(Some(g)) => {
                let ghost before = ret_arr@;
                ret_arr.push(g);
                assert(groups_view(ret_arr@) =~= groups_view(before).push(
                    (ret_arr@.last().group_id, ret_arr@.last().group_name@),
                ));
            },
        }
        i = i + 1;
    }
    assert(iv.take(n as int) =~= iv);
    Ok(ret_arr)
}

proof fn lemma_channels_err(items: Seq<JsonV>, k: int)
    requires
        0 <= k <= items.len(),
        channels_spec(items.take(k)) is Err,
    ensures
        channels_spec(items) == channels_spec(items.take(k)),
    decreases items.len() - k,
{
    if k < items.len() {
        assert(items.take(k + 1).drop_last() =~= items.take(k));
        lemma_channels_err(items, k + 1);
    } else {
        assert(items.take(k) =~= items);
    }
}

fn read_channel(it: &Json) -> (r: Result<Option<GroupInfo>, ShapeError>)
    ensures
        match r {
            Ok(Some(g)) => channel_entry(it@) == Ok::<Option<(u64, Seq<char>)>, ShapeError>(
                Some((g.group_id, g.group_name@)),
            ) && g.member_count == 0 && g.max_member_count == 0,
            Ok(None) => channel_entry(it@) == Ok::<Option<(u64, Seq<char>)>, ShapeError>(None),
            Err(e) => channel_entry(it@) == Err::<Option<(u64, Seq<char>)>, ShapeError>(e),
        },
{
    let id = match it.str_member("id") {
        Ok(s) => s,
        Err(e) => return Err(e),
    };
    let group_name = match it.str_member("name") {
        Ok(s) => s,
        Err(e) => return Err(e),
    };
    let tp = match it.i64_member("type") {
        Ok(t) => t,
        Err(e) => return Err(e),
    };
    let is_category = match it.bool_member("is_category") {
        Ok(b) => b,
        Err(e) => return Err(e),
    };
    if !is_category && tp == 1 {
        match parse_u64(id.as_str()) {
            None => Err(ShapeError::BadNumber),
            Some(group_id) => Ok(
                Some(GroupInfo { group_id, group_name, member_count: 0, max_member_count: 0 }),
            ),
        }
    } else {
        Ok(None)
    }
}

/// The ids of a guild list, in order.
pub open spec fn guild_ids_spec(items: Seq<JsonV>) -> Result<Seq<Seq<char>>, ShapeError>
    decreases items.len(),
{
    if items.len() == 0 {
        Ok(Seq::empty())
    } else {
        match guild_ids_spec(items.drop_last()) {
            Err(e) => Err(e),
            Ok(ids) => match str_member(items.last(), "id"@) {
                Err(e) => Err(e),
                Ok(id) => Ok(ids.push(id)),
            },
        }
    }
}

proof fn lemma_guild_ids_err(items: Seq<JsonV>, k: int)
    requires
        0 <= k <= items.len(),
        guild_ids_spec(items.take(k)) is Err,
    ensures
        guild_ids_spec(items) == guild_ids_spec(items.take(k)),
    decreases items.len() - k,
{
    if k < items.len() {
        assert(items.take(k + 1).drop_last() =~= items.take(k));
        lemma_guild_ids_err(items, k + 1);
    } else {
        assert(items.take(k) =~= items);
    }
}

/// The guild ids of the reply data of `/guild/list`.
pub fn parse_guild_ids(d: &Json) -> (r: Result<Vec<String>, ShapeError>)
    ensures
        match r {
            Ok(v) => (match array_member(d@, "items"@) {
                Ok(items) => guild_ids_spec(items),
                Err(e) => Err(e),
            }) == Ok::<Seq<Seq<char>>, ShapeError>(v@.map_values(|s: String| s@)),
            Err(e) => (match array_member(d@, "items"@) {
                Ok(items) => guild_ids_spec(items),
                Err(e) => Err(e),
            }) == Err::<Seq<Seq<char>>, ShapeError>(e),
        },
{
    let items = match d.array_member("items") {
        Ok(a) => a,
        Err(e) => return Err(e),
    };
    let ghost iv = json_seq_view(items@);
    proof {
        lemma_seq_view(items@);
        assert(iv.take(0) =~= Seq::<JsonV>::empty());
    }
    let mut out: Vec<String> = Vec::new();
    assert(out@.map_values(|s: String| s@) =~= Seq::<Seq<char>>::empty());
    let n = items.len();
    let mut i: usize = 0;
    while i < n
        invariant
            n == items@.len(),
            i <= n,
            iv == json_seq_view(items@),
            iv.len() == n,
            forall|k: int| 0 <= k < n ==> #[trigger] iv[k] == json_view(items@[k]),
            array_member(d@, "items"@) == Ok::<Seq<JsonV>, ShapeError>(iv),
            guild_ids_spec(iv.take(i as int)) == Ok::<Seq<Seq<char>>, ShapeError>(
                out@.map_values(|s: String| s@),
            ),
        decreases n - i,
    {
        proof {
            assert(iv.take(i + 1).drop_last() =~= iv.take(i as int));
            assert(iv.take(i + 1).last() == items@[i as int]@);
        }
        match items[i].str_member("id") {
            Err(e) => {
                proof {
                    lemma_guild_ids_err(iv, i + 1);
                }
                return Err(e);
            },
            Ok(id) => {
                let ghost before = out@;
                out.push(id);
                assert(out@.map_values(|s: String| s@) =~= before.map_values(|s: String| s@).push(
                    out@.last()@,
                ));
            },
        }
        i = i + 1;
    }
    assert(iv.take(n as int) =~= iv);
    Ok(out)
}

/// One entry of a private-chat list as a friend: `target_info.id` read as a
/// number, and `target_info.username` as both nickname and remark.
pub open spec fn friend_entry(it: JsonV) -> Result<(u64, Seq<char>), ShapeError> {
    match member(it, "target_info"@) {
        Err(e) => Err(e),
        Ok(t) => id_name_spec(t, "id"@, "username"@),
    }
}

pub open spec fn friends_spec(items: Seq<JsonV>) -> Result<Seq<(u64, Seq<char>)>, ShapeError>
    decreases items.len(),
{
    if items.len() == 0 {
        Ok(Seq::empty())
    } else {
        match friends_spec(items.drop_last()) {
            Err(e) => Err(e),
            Ok(fs) => match friend_entry(items.last()) {
                Err(e) => Err(e),
                Ok(f) => Ok(fs.push(f)),
            },
        }
    }
}

proof fn lemma_friends_err(items: Seq<JsonV>, k: int)
    requires
        0 <= k <= items.len(),
        friends_spec(items.take(k)) is Err,
    ensures
        friends_spec(items) == friends_spec(items.take(k)),
    decreases items.len() - k,
{
    if k < items.len() {
        assert(items.take(k + 1).drop_last() =~= items.take(k));
        lemma_friends_err(items, k + 1);
    } else {
        assert(items.take(k) =~= items);
    }
}

pub open spec fn friends_view(v: Seq<FriendInfo>) -> Seq<(u64, Seq<char>)> {
    v.map_values(|f: FriendInfo| (f.user_id, f.nickname@))
}

/// The friends on one page of the reply data of `/user-chat/list`.
pub fn parse_friend_page(d: &Json) -> (r: Result<Vec<FriendInfo>, ShapeError>)
    ensures
        match r {
            Ok(v) => (match array_member(d@, "items"@) {
                Ok(items) => friends_spec(items),
                Err(e) => Err(e),
            }) == Ok::<Seq<(u64, Seq<char>)>, ShapeError>(friends_view(v@)) && forall|i: int|
                0 <= i < v@.len() ==> #[trigger] v@[i].remark@ == v@[i].nickname@,
            Err(e) => (match array_member(d@, "items"@) {
                Ok(items) => friends_spec(items),
                Err(e) => Err(e),
            }) == Err::<Seq<(u64, Seq<char>)>, ShapeError>(e),
        },
{
    let items = match d.array_member("items") {
        Ok(a) => a,
        Err(e) => return Err(e),
    };
    let ghost iv = json_seq_view(items@);
    proof {
        lemma_seq_view(items@);
        assert(iv.take(0) =~= Seq::<JsonV>::empty());
    }
    let mut out: Vec<FriendInfo> = Vec::new();
    assert(friends_view(out@) =~= Seq::<(u64, Seq<char>)>::empty());
    let n = items.len();
    let mut i: usize = 0;
    while i < n
        invariant
            n == items@.len(),
            i <= n,
            iv == json_seq_view(items@),
            iv.len() == n,
            forall|k: int| 0 <= k < n ==> #[trigger] iv[k] == json_view(items@[k]),
            array_member(d@, "items"@) == Ok::<Seq<JsonV>, ShapeError>(iv),
            friends_spec(iv.take(i as int)) == Ok::<Seq<(u64, Seq<char>)>, ShapeError>(
                friends_view(out@),
            ),
            forall|k: int| 0 <= k < out@.len() ==> #[trigger] out@[k].remark@ == out@[k].nickname@,
        decreases n - i,
    {
        proof {
            assert(iv.take(i + 1).drop_last() =~= iv.take(i as int));
            assert(iv.take(i + 1).last() == items@[i as int]@);
        }
        let step = match items[i].member("target_info") {
            Err(e) => Err(e),
            Ok(t) => read_id_name(t, "id", "username"),
        };
        match step {
            Err(e) => {
                proof {
                    lemma_friends_err(iv, i + 1);
                }
                return Err(e);
            },
            Ok((user_id, username)) => {
                let ghost before = out@;
                let remark = username.clone();
                out.push(FriendInfo { user_id, nickname: username, remark });
                assert(friends_view(out@) =~= friends_view(before).push(
                    (out@.last().user_id, out@.last().nickname@),
                ));
            },
        }
        i = i + 1;
    }
    assert(iv.take(n as int) =~= iv);
    Ok(out)
}

/// The later pages of a listing whose first page says it has `page_total`
/// pages: 2, 3, ..., `page_total` (none when there is only one page).
pub fn later_pages(page_total: i64) -> (r: Vec<u64>)
    ensures
        r@.len() == (if page_total >= 2 {
            page_total - 1
        } else {
            0
        }),
        forall|i: int| 0 <= i < r@.len() ==> #[trigger] r@[i] == i + 2,
{
    let mut out: Vec<u64> = Vec::new();
    if page_total < 2 {
        return out;
    }
    let total = page_total as u64;
    let mut p: u64 = 2;
    while p <= total
        invariant
            2 <= p <= total + 1,
            total == page_total,
            total < 0x8000_0000_0000_0000u64,
            out@.len() == p - 2,
            forall|i: int| 0 <= i < out@.len() ==> #[trigger] out@[i] == i + 2,
        decreases total + 1 - p,
    {
        out.push(p);
        p = p + 1;
    }
    out
}

/// How many pages the private-chat list has: `meta.page_total`.
pub fn parse_page_total(d: &Json) -> (r: Result<i64, ShapeError>)
    ensures
        r == (match member(d@, "meta"@) {
            Err(e) => Err(e),
            Ok(m) => i64_member(m, "page_total"@),
        }),
{
    match d.member("meta") {
        Err(e) => Err(e),
        Ok(m) => m.i64_member("page_total"),
    }
}

/// The role of a group member: `owner` for the guild's owner, `admin` for a
/// member with any role, else `member`.
pub open spec fn member_role_spec(owner_id: Seq<char>, user_id: Seq<char>, user_view: JsonV) -> Result<
    Seq<char>,
    ShapeError,
> {
    if owner_id == user_id {
        Ok("owner"@)
    } else {
        match array_member(user_view, "roles"@) {
            Err(e) => Err(e),
            Ok(roles) => if roles.len() != 0 {
                Ok("admin"@)
            } else {
                Ok("member"@)
            },
        }
    }
}

/// What the member replies give: ids, names, join and last-active times
/// (milliseconds, to seconds, truncated to 32 bits), and the role.
pub struct MemberInfoV {
    pub group_id: u64,
    pub user_id: u64,
    pub nickname: Seq<char>,
    pub card: Seq<char>,
    pub join_time: i32,
    pub last_sent_time: i32,
    pub role: Seq<char>,
}

/// A group member from the reply data of `/user/view` (with the guild) and
/// `/guild/view`: the guild's `user_id` (its owner) and the member's roles
/// decide the role; then the group and user ids are read as numbers, and
/// `username`, `nickname`, `joined_at` and `active_time` are read.
pub open spec fn member_info_spec(
    group_id: Seq<char>,
    user_id: Seq<char>,
    user_view: JsonV,
    guild_view: JsonV,
) -> Result<MemberInfoV, ShapeError> {
    match str_member(guild_view, "user_id"@) {
        Err(e) => Err(e),
        Ok(owner_id) => match member_role_spec(owner_id, user_id, user_view) {
            Err(e) => Err(e),
            Ok(role) => match parse_u64_spec(group_id) {
                None => Err(ShapeError::BadNumber),
                Some(gid) => match parse_u64_spec(user_id) {
                    None => Err(ShapeError::BadNumber),
                    Some(uid) => match str_member(user_view, "username"@) {
                        Err(e) => Err(e),
                        Ok(nickname) => match str_member(user_view, "nickname"@) {
                            Err(e) => Err(e),
                            Ok(card) => match u64_member(user_view, "joined_at"@) {
                                Err(e) => Err(e),
                                Ok(joined) => match u64_member(user_view, "active_time"@) {
                                    Err(e) => Err(e),
                                    Ok(active) => Ok(
                                        MemberInfoV {
                                            group_id: gid,
                                            user_id: uid,
                                            nickname,
                                            card,
                                            join_time: (joined / 1000) as i32,
                                            last_sent_time: (active / 1000) as i32,
                                            role,
                                        },
                                    ),
                                },
                            },
                        },
                    },
                },
            },
        },
    }
}

pub open spec fn member_view(m: GroupMemberInfo) -> MemberInfoV {
    MemberInfoV {
        group_id: m.group_id,
        user_id: m.user_id,
        nickname: m.nickname@,
        card: m.card@,
        join_time: m.join_time,
        last_sent_time: m.last_sent_time,
        role: m.role@,
    }
}

/// The fields KOOK does not tell, as OneBot expects them.
pub open spec fn member_defaults(m: GroupMemberInfo) -> bool {
    &&& m.sex@ == "unknown"@
    &&& m.age == 0
    &&& m.area@ == Seq::<char>::empty()
    &&& m.level@ == Seq::<char>::empty()
    &&& !m.unfriendly
    &&& m.title@ == Seq::<char>::empty()
    &&& m.title_expire_time == 0
    &&& !m.card_changeable
}

/// A group member of group `group_id`, user `user_id`, from the member's
/// `/user/view` data and the guild's `/guild/view` data.
pub fn build_member_info(group_id: &str, user_id: &str, user_view: &Json, guild_view: &Json) -> (r:
    Result<GroupMemberInfo, ShapeError>)
    ensures
        match r {
            Ok(m) => member_info_spec(group_id@, user_id@, user_view@, guild_view@) == Ok::<
                MemberInfoV,
                ShapeError,
            >(member_view(m)) && member_defaults(m),
            Err(e) => member_info_spec(group_id@, user_id@, user_view@, guild_view@) == Err::<
                MemberInfoV,
                ShapeError,
            >(e),
        },
{
    let owner_id = match guild_view.str_member("user_id") {
        Ok(s) => s,
        Err(e) => return Err(e),
    };
    let role = if str_eq(owner_id.as_str(), user_id) {
        "owner"
    } else {
        let roles = match user_view.array_member("roles") {
            Ok(r) => r,
            Err(e) => return Err(e),
        };
        proof {
            lemma_seq_view(roles@);
        }
        if roles.len() != 0 {
            "admin"
        } else {
            "member"
        }
    };
    let gid = match parse_u64(group_id) {
        Some(n) => n,
        None => return Err(ShapeError::BadNumber),
    };
    let uid = match parse_u64(user_id) {
        Some(n) => n,
        None => return Err(ShapeError::BadNumber),
    };
    let nickname = match user_view.str_member("username") {
        Ok(s) => s,
        Err(e) => return Err(e),
    };
    let card = match user_view.str_member("nickname") {
        Ok(s) => s,
        Err(e) => return Err(e),
    };
    let joined = match user_view.u64_member("joined_at") {
        Ok(n) => n,
        Err(e) => return Err(e),
    };
    let active = match user_view.u64_member("active_time") {
        Ok(n) => n,
        Err(e) => return Err(e),
    };
    let m = GroupMemberInfo {
        group_id: gid,
        user_id: uid,
        nickname,
        card,
        sex: to_string("unknown"),
        age: 0,
        area: String::new(),
        join_time: (joined / 1000) as i32,
        last_sent_time: (active / 1000) as i32,
        level: String::new(),
        role: to_string(role),
        unfriendly: false,
        title: String::new(),
        title_expire_time: 0,
        card_changeable: false,
    };
    Ok(m)
}

/// One member of a guild's member list: `id`, then the member as
/// `member_info_spec` reads it from the entry itself.
pub open spec fn member_entry(group_id: Seq<char>, it: JsonV, guild_view: JsonV) -> Result<
    MemberInfoV,
    ShapeError,
> {
    match str_member(it, "id"@) {
        Err(e) => Err(e),
        Ok(uid) => member_info_spec(group_id, uid, it, guild_view),
    }
}

/// The members of a member-list page, in order; the first malformed entry
/// is the error.
pub open spec fn members_spec(group_id: Seq<char>, items: Seq<JsonV>, guild_view: JsonV) -> Result<
    Seq<MemberInfoV>,
    ShapeError,
>
    decreases items.len(),
{
    if items.len() == 0 {
        Ok(Seq::empty())
    } else {
        match members_spec(group_id, items.drop_last(), guild_view) {
            Err(e) => Err(e),
            Ok(ms) => match member_entry(group_id, items.last(), guild_view) {
                Err(e) => Err(e),
                Ok(m) => Ok(ms.push(m)),
            },
        }
    }
}

proof fn lemma_members_err(group_id: Seq<char>, items: Seq<JsonV>, guild_view: JsonV, k: int)
    requires
        0 <= k <= items.len(),
        members_spec(group_id, items.take(k), guild_view) is Err,
    ensures
        members_spec(group_id, items, guild_view) == members_spec(group_id, items.take(k), guild_view),
    decreases items.len() - k,
{
    if k < items.len() {
        assert(items.take(k + 1).drop_last() =~= items.take(k));
        lemma_members_err(group_id, items, guild_view, k + 1);
    } else {
        assert(items.take(k) =~= items);
    }
}

pub open spec fn members_view(v: Seq<GroupMemberInfo>) -> Seq<MemberInfoV> {
    v.map_values(|m: GroupMemberInfo| member_view(m))
}

/// The members of channel `group_id` on one page of the reply data of
/// `/guild/user-list` for its guild, whose `/guild/view` data is
/// `guild_view`: roles are worked out as for a single member.
pub fn parse_member_page(group_id: &str, d: &Json, guild_view: &Json) -> (r: Result<
    Vec<GroupMemberInfo>,
    ShapeError,
>)
    ensures
        match r {
            Ok(v) => (match array_member(d@, "items"@) {
                Ok(items) => members_spec(group_id@, items, guild_view@),
                Err(e) => Err(e),
            }) == Ok::<Seq<MemberInfoV>, ShapeError>(members_view(v@)) && forall|i: int|
                0 <= i < v@.len() ==> #[trigger] member_defaults(v@[i]),
            Err(e) => (match array_member(d@, "items"@) {
                Ok(items) => members_spec(group_id@, items, guild_view@),
                Err(e) => Err(e),
            }) == Err::<Seq<MemberInfoV>, ShapeError>(e),
        },
{
    let items = match d.array_member("items") {
        Ok(a) => a,
        Err(e) => return Err(e),
    };
    let ghost iv = json_seq_view(items@);
    proof {
        lemma_seq_view(items@);
        assert(iv.take(0) =~= Seq::<JsonV>::empty());
    }
    let mut out: Vec<GroupMemberInfo> = Vec::new();
    assert(members_view(out@) =~= Seq::<MemberInfoV>::empty());
    let n = items.len();
    let mut i: usize = 0;
    while i < n
        invariant
            n == items@.len(),
            i <= n,
            iv == json_seq_view(items@),
            iv.len() == n,
            forall|k: int| 0 <= k < n ==> #[trigger] iv[k] == json_view(items@[k]),
            array_member(d@, "items"@) == Ok::<Seq<JsonV>, ShapeError>(iv),
            members_spec(group_id@, iv.take(i as int), guild_view@) == Ok::<
                Seq<MemberInfoV>,
                ShapeError,
            >(members_view(out@)),
            forall|k: int| 0 <= k < out@.len() ==> #[trigger] member_defaults(out@[k]),
        decreases n - i,
    {
        proof {
            assert(iv.take(i + 1).drop_last() =~= iv.take(i as int));
            assert(iv.take(i + 1).last() == items@[i as int]@);
        }
        let step = match items[i].str_member("id") {
            Err(e) => Err(e),
            Ok(uid) => build_member_info(group_id, uid.as_str(), &items[i], guild_view),
        };
        match step {
            Err(e) => {
                proof {
                    lemma_members_err(group_id@, iv, guild_view@, i + 1);
                }
                return Err(e);
            },
            Ok(m) => {
                let ghost before = out@;
                let ghost mv = member_view(m);
                out.push(m);
                assert(members_view(out@) =~= members_view(before).push(mv));
            },
        }
        i = i + 1;
    }
    assert(iv.take(n as int) =~= iv);
    Ok(out)
}

/// `/guild/user-list?guild_id=<guild_id>`, with `&page=<page>` for a later
/// page: the members of a guild.
pub fn member_list_path(guild_id: &str, page: Option<u64>) -> (r: String)
    ensures
        r@ == match page {
            None => route("/guild/user-list?guild_id="@, guild_id@),
            Some(p) => route("/guild/user-list?guild_id="@, guild_id@) + "&page="@ + dec_nat(
                p as nat,
            ),
        },
{
    let mut s = route_of("/guild/user-list?guild_id=", guild_id);
    match page {
        None => {},
        Some(p) => {
            push_str(&mut s, "&page=");
            let n = u64_to_string(p);
            push_str(&mut s, n.as_str());
        },
    }
    s
}

/// The `url` of an uploaded file, from the whole reply of `/asset/create`.
pub fn parse_upload_url(reply: &Json) -> (r: Result<String, ShapeError>)
    ensures
        match r {
            Ok(u) => (match member(reply@, "data"@) {
                Err(e) => Err(e),
                Ok(d) => str_member(d, "url"@),
            }) == Ok::<Seq<char>, ShapeError>(u@),
            Err(e) => (match member(reply@, "data"@) {
                Err(e) => Err(e),
                Ok(d) => str_member(d, "url"@),
            }) == Err::<Seq<char>, ShapeError>(e),
        },
{
    match reply.member("data") {
        Err(e) => Err(e),
        Ok(d) => d.str_member("url"),
    }
}

/// A string member of reply data: `url` of `/gateway/index`, `guild_id` of
/// `/channel/view`, `msg_id` of a created message.
pub fn data_str(d: &Json, k: &str) -> (r: Result<String, ShapeError>)
    ensures
        match r {
            Ok(s) => str_member(d@, k@) == Ok::<Seq<char>, ShapeError>(s@),
            Err(e) => str_member(d@, k@) == Err::<Seq<char>, ShapeError>(e),
        },
{
    d.str_member(k)
}

/// `base` followed by `value`: a KOOK route with one parameter filled in.
pub open spec fn route(base: Seq<char>, value: Seq<char>) -> Seq<char> {
    base + value
}

fn route_of(base: &str, value: &str) -> (r: String)
    ensures
        r@ == route(base@, value@),
{
    let mut s = to_string(base);
    push_str(&mut s, value);
    s
}

/// `/channel/list?guild_id=<guild_id>`: the channels of a guild.
pub fn channel_list_path(guild_id: &str) -> (r: String)
    ensures
        r@ == route("/channel/list?guild_id="@, guild_id@),
{
    route_of("/channel/list?guild_id=", guild_id)
}

/// `/channel/view?target_id=<group_id>`: a channel.
pub fn channel_view_path(group_id: &str) -> (r: String)
    ensures
        r@ == route("/channel/view?target_id="@, group_id@),
{
    route_of("/channel/view?target_id=", group_id)
}

/// `/guild/view?guild_id=<guild_id>`: a guild.
pub fn guild_view_path(guild_id: &str) -> (r: String)
    ensures
        r@ == route("/guild/view?guild_id="@, guild_id@),
{
    route_of("/guild/view?guild_id=", guild_id)
}

/// `/user/view?user_id=<user_id>`, with `&guild_id=<guild_id>` for a guild
/// member: a user.
pub fn user_view_path(user_id: &str, guild_id: Option<&str>) -> (r: String)
    ensures
        r@ == match guild_id {
            None => route("/user/view?user_id="@, user_id@),
            Some(g) => route("/user/view?user_id="@, user_id@) + "&guild_id="@ + g@,
        },
{
    let mut s = route_of("/user/view?user_id=", user_id);
    match guild_id {
        None => {},
        Some(g) => {
            push_str(&mut s, "&guild_id=");
            push_str(&mut s, g);
        },
    }
    s
}

/// `/user-chat/list`, or `/user-chat/list?page=<page>` for a later page.
pub fn friend_list_path(page: Option<u64>) -> (r: String)
    ensures
        r@ == match page {
            None => "/user-chat/list"@,
            Some(p) => route("/user-chat/list?page="@, dec_nat(p as nat)),
        },
{
    match page {
        None => to_string("/user-chat/list"),
        Some(p) => {
            let n = u64_to_string(p);
            route_of("/user-chat/list?page=", n.as_str())
        },
    }
}

pub open spec fn obj2(k1: Seq<char>, v1: JsonV, k2: Seq<char>, v2: JsonV) -> JsonV {
    JsonV::Object(seq![(k1, v1), (k2, v2)])
}

/// The body of `/guild/kickout`: `{"guild_id": ..., "target_id": ...}`.
pub fn kick_body(guild_id: &str, user_id: &str) -> (r: Json)
    ensures
        r@ == obj2("guild_id"@, JsonV::Str(guild_id@), "target_id"@, JsonV::Str(user_id@)),
{
    let mut f: Vec<(String, Json)> = Vec::new();
    push_field(&mut f, "guild_id", Json::str_of(guild_id));
    push_field(&mut f, "target_id", Json::str_of(user_id));
    assert(json_fields_view(f@) =~= seq![
        ("guild_id"@, JsonV::Str(guild_id@)),
        ("target_id"@, JsonV::Str(user_id@)),
    ]);
    Json::Object(f)
}

/// The body of `/message/delete`: `{"msg_id": ...}`.
pub fn delete_body(msg_id: &str) -> (r: Json)
    ensures
        r@ == JsonV::Object(seq![("msg_id"@, JsonV::Str(msg_id@))]),
{
    let mut f: Vec<(String, Json)> = Vec::new();
    push_field(&mut f, "msg_id", Json::str_of(msg_id));
    assert(json_fields_view(f@) =~= seq![("msg_id"@, JsonV::Str(msg_id@))]);
    Json::Object(f)
}

/// The body of `/guild/leave`: `{"guild_id": ...}`.
pub fn leave_body(guild_id: &str) -> (r: Json)
    ensures
        r@ == JsonV::Object(seq![("guild_id"@, JsonV::Str(guild_id@))]),
{
    let mut f: Vec<(String, Json)> = Vec::new();
    push_field(&mut f, "guild_id", Json::str_of(guild_id));
    assert(json_fields_view(f@) =~= seq![("guild_id"@, JsonV::Str(guild_id@))]);
    Json::Object(f)
}

/// The body of `/channel/update`: `{"channel_id": ..., "name": ...}`.
pub fn rename_body(channel_id: &str, name: &str) -> (r: Json)
    ensures
        r@ == obj2("channel_id"@, JsonV::Str(channel_id@), "name"@, JsonV::Str(name@)),
{
    let mut f: Vec<(String, Json)> = Vec::new();
    push_field(&mut f, "channel_id", Json::str_of(channel_id));
    push_field(&mut f, "name", Json::str_of(name));
    assert(json_fields_view(f@) =~= seq![
        ("channel_id"@, JsonV::Str(channel_id@)),
        ("name"@, JsonV::Str(name@)),
    ]);
    Json::Object(f)
}

/// The body of `/guild/nickname`: `{"guild_id", "user_id", "nickname"}`.
pub fn nickname_body(guild_id: &str, user_id: &str, nickname: &str) -> (r: Json)
    ensures
        r@ == JsonV::Object(
            seq![
                ("guild_id"@, JsonV::Str(guild_id@)),
                ("user_id"@, JsonV::Str(user_id@)),
                ("nickname"@, JsonV::Str(nickname@)),
            ],
        ),
{
    let mut f: Vec<(String, Json)> = Vec::new();
    push_field(&mut f, "guild_id", Json::str_of(guild_id));
    push_field(&mut f, "user_id", Json::str_of(user_id));
    push_field(&mut f, "nickname", Json::str_of(nickname));
    assert(json_fields_view(f@) =~= seq![
        ("guild_id"@, JsonV::Str(guild_id@)),
        ("user_id"@, JsonV::Str(user_id@)),
        ("nickname"@, JsonV::Str(nickname@)),
    ]);
    Json::Object(f)
}

/// The body of `/message/create` and `/direct-message/create`:
/// `{"content", "target_id", "type"}` (type 1 text, 2 image, 10 card), and
/// `"quote"`, the KOOK id of the message it replies to, when it replies.
pub open spec fn message_body_spec(
    tp: i32,
    target_id: Seq<char>,
    content: Seq<char>,
    quote: Option<Seq<char>>,
) -> JsonV {
    JsonV::Object(
        seq![
            ("content"@, JsonV::Str(content)),
            ("target_id"@, JsonV::Str(target_id)),
            ("type"@, i32_v(tp)),
        ] + match quote {
            Some(q) => seq![("quote"@, JsonV::Str(q))],
            None => Seq::empty(),
        },
    )
}

pub open spec fn opt_str_view(o: Option<&str>) -> Option<Seq<char>> {
    match o {
        Some(s) => Some(s@),
        None => None,
    }
}

/// The body of a message to send.
pub fn message_body(tp: i32, target_id: &str, content: &str, quote: Option<&str>) -> (r: Json)
    ensures
        r@ == message_body_spec(tp, target_id@, content@, opt_str_view(quote)),
{
    let mut f: Vec<(String, Json)> = Vec::new();
    push_field(&mut f, "content", Json::str_of(content));
    push_field(&mut f, "target_id", Json::str_of(target_id));
    push_field(&mut f, "type", Json::from_i64(tp as i64));
    match quote {
        Some(q) => {
            push_field(&mut f, "quote", Json::str_of(q));
        },
        None => {},
    }
    assert(json_fields_view(f@) =~= message_body_spec(
        tp,
        target_id@,
        content@,
        opt_str_view(quote),
    )->Object_0);
    Json::Object(f)
}

/// The bodies of the messages of one OneBot message, in order: the first
/// carries the quote, if any.
pub fn message_bodies(target_id: &str, pieces: &Vec<(i32, String)>, quote: Option<&str>) -> (r: Vec<
    Json,
>)
    ensures
        r@.len() == pieces@.len(),
        forall|i: int|
            0 <= i < r@.len() ==> (#[trigger] r@[i])@ == message_body_spec(
                pieces@[i].0,
                target_id@,
                pieces@[i].1@,
                if i == 0 {
                    opt_str_view(quote)
                } else {
                    None
                },
            ),
{
    let mut out: Vec<Json> = Vec::new();
    let mut i: usize = 0;
    while i < pieces.len()
        invariant
            i <= pieces@.len(),
            out@.len() == i,
            forall|j: int|
                0 <= j < i ==> (#[trigger] out@[j])@ == message_body_spec(
                    pieces@[j].0,
                    target_id@,
                    pieces@[j].1@,
                    if j == 0 {
                        opt_str_view(quote)
                    } else {
                        None
                    },
                ),
        decreases pieces@.len() - i,
    {
        let q = if i == 0 {
            quote
        } else {
            None
        };
        out.push(message_body(pieces[i].0, target_id, pieces[i].1.as_str(), q));
        i = i + 1;
    }
    out
}

/// The bytes that standard base64 (with padding) decodes `s` to, as the
/// `base64` crate decodes it; nothing when `s` is not valid base64.
pub uninterp spec fn base64_decoded(s: Seq<char>) -> Option<Seq<u8>>;

/// Decodes standard, padded base64 with the `base64` crate
/// (`GeneralPurpose::new(&alphabet::STANDARD, PAD)`, `Engine::decode`). The
/// contract names the result.
#[verifier::external_body]
fn base64_decode(s: &str) -> (r: Option<Vec<u8>>)
    ensures
        r matches Some(v) ==> base64_decoded(s@) == Some(v@),
        r is None ==> base64_decoded(s@) is None,
{
    base64::Engine::decode(
        &base64::engine::GeneralPurpose::new(
            &base64::alphabet::STANDARD,
            base64::engine::general_purpose::PAD,
        ),
        s,
    ).ok()
}

/// How many bytes UTF-8 takes for `c`.
pub open spec fn utf8_len(c: char) -> nat {
    if (c as u32) < 0x80 {
        1
    } else if (c as u32) < 0x800 {
        2
    } else if (c as u32) < 0x10000 {
        3
    } else {
        4
    }
}

/// `s` without its first `n` bytes (`str::get(n..)`): nothing when `s` is
/// shorter or byte `n` falls inside a character.
pub open spec fn skip_bytes(s: Seq<char>, n: nat) -> Option<Seq<char>>
    decreases s.len(),
{
    if n == 0 {
        Some(s)
    } else if s.len() == 0 {
        None
    } else if utf8_len(s[0]) > n {
        None
    } else {
        skip_bytes(s.drop_first(), (n - utf8_len(s[0])) as nat)
    }
}

/// Where the picture of an `image` segment comes from.
pub enum ImageSource {
    /// Downloaded from this address.
    Download(String),
    /// These bytes, given inline.
    Bytes(Vec<u8>),
    /// Read from this file.
    File(String),
}

/// Why the picture of an `image` segment could not be found.
#[derive(Debug, Clone, Copy, PartialEq, Eq, Structural)]
pub enum ImageError {
    /// `base64://` followed by text that is not base64.
    BadBase64,
    /// A file address too short to hold a path.
    NoPath,
}

pub enum ImageSourceV {
    Download(Seq<char>),
    Bytes(Seq<u8>),
    File(Seq<char>),
}

impl View for ImageSource {
    type V = ImageSourceV;

    open spec fn view(&self) -> ImageSourceV {
        match self {
            ImageSource::Download(u) => ImageSourceV::Download(u@),
            ImageSource::Bytes(b) => ImageSourceV::Bytes(b@),
            ImageSource::File(p) => ImageSourceV::File(p@),
        }
    }
}

/// The picture of `file`: an address starting with `http` is downloaded;
/// `base64://` gives the bytes inline; anything else is a file address whose
/// first 8 bytes (`file:///`) are dropped.
pub open spec fn image_source_spec(file: Seq<char>) -> Result<ImageSourceV, ImageError> {
    if crate::text::has_prefix(file, "http"@) {
        Ok(ImageSourceV::Download(file))
    } else if crate::text::has_prefix(file, "base64://"@) {
        match base64_decoded(file.skip(9)) {
            Some(b) => Ok(ImageSourceV::Bytes(b)),
            None => Err(ImageError::BadBase64),
        }
    } else {
        match skip_bytes(file, 8) {
            Some(p) => Ok(ImageSourceV::File(p)),
            None => Err(ImageError::NoPath),
        }
    }
}

fn skip_bytes_of(s: &str, n: u64) -> (r: Option<String>)
    ensures
        match r {
            Some(t) => skip_bytes(s@, n as nat) == Some(t@),
            None => skip_bytes(s@, n as nat) is None,
        },
{
    let cs = crate::text::chars_of(s);
    let len = cs.len();
    let mut i: usize = 0;
    let mut left: u64 = n;
    assert(cs@.skip(0) =~= cs@);
    while i < len && left > 0
        invariant
            len == cs@.len(),
            i <= len,
            skip_bytes(s@, n as nat) == skip_bytes(cs@.skip(i as int), left as nat),
        decreases len - i,
    {
        let c = cs[i];
        let ghost rest = cs@.skip(i as int);
        assert(rest[0] == c);
        let w: u64 = if (c as u32) < 0x80 {
            1
        } else if (c as u32) < 0x800 {
            2
        } else if (c as u32) < 0x10000 {
            3
        } else {
            4
        };
        if w > left {
            return None;
        }
        assert(rest.drop_first() =~= cs@.skip(i + 1));
        left = left - w;
        i = i + 1;
    }
    if left > 0 {
        assert(cs@.skip(i as int).len() == 0);
        return None;
    }
    let rest = vstd::slice::slice_subrange(cs.as_slice(), i, len);
    assert(cs@.skip(i as int) =~= cs@.subrange(i as int, len as int));
    Some(crate::text::string_from_chars(rest))
}

/// Finds the picture of an `image` segment's `file`.
pub fn image_source(file: &str) -> (r: Result<ImageSource, ImageError>)
    ensures
        match r {
            Ok(src) => image_source_spec(file@) == Ok::<ImageSourceV, ImageError>(src@),
            Err(e) => image_source_spec(file@) == Err::<ImageSourceV, ImageError>(e),
        },
{
    if crate::text::starts_with(file, "http") {
        Ok(ImageSource::Download(to_string(file)))
    } else if crate::text::starts_with(file, "base64://") {
        proof {
            reveal_strlit("base64://");
            lemma_skip_ascii_prefix(file@, "base64://"@);
        }
        let b64 = match skip_bytes_of(file, 9) {
            Some(t) => t,
            None => return Err(ImageError::BadBase64),
        };
        match base64_decode(b64.as_str()) {
            Some(b) => Ok(ImageSource::Bytes(b)),
            None => Err(ImageError::BadBase64),
        }
    } else {
        match skip_bytes_of(file, 8) {
            Some(p) => Ok(ImageSource::File(p)),
            None => Err(ImageError::NoPath),
        }
    }
}

/// Skipping the bytes of an ASCII prefix skips its characters.
proof fn lemma_skip_ascii_prefix(s: Seq<char>, p: Seq<char>)
    requires
        crate::text::has_prefix(s, p),
        forall|i: int| 0 <= i < p.len() ==> (#[trigger] p[i] as u32) < 0x80,
    ensures
        skip_bytes(s, p.len()) == Some(s.skip(p.len() as int)),
    decreases p.len(),
{
    if p.len() > 0 {
        assert(s.take(p.len() as int)[0] == p[0]);
        assert(s[0] == p[0]);
        let s2 = s.drop_first();
        let p2 = p.drop_first();
        assert(s2.take(p2.len() as int) =~= p2) by {
            assert forall|i: int| 0 <= i < p2.len() implies s2.take(p2.len() as int)[i] == p2[i] by {
                assert(s.take(p.len() as int)[i + 1] == p[i + 1]);
            }
        }
        assert forall|i: int| 0 <= i < p2.len() implies (#[trigger] p2[i] as u32) < 0x80 by {
            assert(p2[i] == p[i + 1]);
        }
        lemma_skip_ascii_prefix(s2, p2);
        assert(s2.skip(p2.len() as int) =~= s.skip(p.len() as int));
    } else {
        assert(s.skip(0) =~= s);
    }
}

/// A member's role and the rest of a member's entry. The guild's owner
/// (the guild's `user_id`) is `owner` whatever roles the member holds, and
/// needs no `roles` member; anyone else is `admin` when holding a role and
/// `member` when holding none. The entry is read exactly when every member
/// it needs is there: the owner id, the roles of a non-owner, the two ids
/// as numbers, `username`, `nickname`, `joined_at` and `active_time`.
pub proof fn law_member_role(
    group_id: Seq<char>,
    user_id: Seq<char>,
    user_view: JsonV,
    guild_view: JsonV,
)
    ensures
        member_info_spec(group_id, user_id, user_view, guild_view) matches Ok(m) ==> (
        str_member(guild_view, "user_id"@) == Ok::<Seq<char>, ShapeError>(user_id) ==> m.role
            == "owner"@),
        member_info_spec(group_id, user_id, user_view, guild_view) matches Ok(m) ==> (
        str_member(guild_view, "user_id"@) != Ok::<Seq<char>, ShapeError>(user_id) ==> (array_member(
            user_view,
            "roles"@,
        ) matches Ok(rs) && (m.role == "admin"@ <==> rs.len() > 0) && (m.role == "member"@
            <==> rs.len() == 0))),
        member_info_spec(group_id, user_id, user_view, guild_view) matches Ok(m) ==> Some(
            m.group_id,
        ) == parse_u64_spec(group_id) && Some(m.user_id) == parse_u64_spec(user_id) && Ok::<
            Seq<char>,
            ShapeError,
        >(m.nickname) == str_member(user_view, "username"@) && Ok::<Seq<char>, ShapeError>(m.card)
            == str_member(user_view, "nickname"@),
        member_info_spec(group_id, user_id, user_view, guild_view) matches Ok(m) ==> (u64_member(
            user_view,
            "joined_at"@,
        ) matches Ok(j) && m.join_time == (j / 1000) as i32),
        member_info_spec(group_id, user_id, user_view, guild_view) matches Ok(m) ==> (u64_member(
            user_view,
            "active_time"@,
        ) matches Ok(a) && m.last_sent_time == (a / 1000) as i32),
        member_info_spec(group_id, user_id, user_view, guild_view) is Ok <==> (str_member(
            guild_view,
            "user_id"@,
        ) is Ok && (str_member(guild_view, "user_id"@) == Ok::<Seq<char>, ShapeError>(user_id)
            || array_member(user_view, "roles"@) is Ok) && parse_u64_spec(group_id) is Some
            && parse_u64_spec(user_id) is Some && str_member(user_view, "username"@) is Ok
            && str_member(user_view, "nickname"@) is Ok && u64_member(user_view, "joined_at"@) is Ok
            && u64_member(user_view, "active_time"@) is Ok),
{
    reveal_strlit("owner");
    reveal_strlit("admin");
    reveal_strlit("member");
    assert("admin"@ != "member"@) by {
        assert("admin"@.len() != "member"@.len());
    }
    assert("owner"@ != "admin"@) by {
        assert("owner"@[0] != "admin"@[0]);
    }
}

/// One chat of a private-chat list as a friend: the chat's
/// `target_info.id` read as a number, and its `target_info.username`.
pub proof fn law_friend_entry(it: JsonV, t: JsonV, id: Seq<char>, name: Seq<char>)
    requires
        it.get("target_info"@) == Some(t),
        str_member(t, "id"@) == Ok::<Seq<char>, ShapeError>(id),
        str_member(t, "username"@) == Ok::<Seq<char>, ShapeError>(name),
    ensures
        parse_u64_spec(id) matches Some(n) ==> friend_entry(it) == Ok::<
            (u64, Seq<char>),
            ShapeError,
        >((n, name)),
        parse_u64_spec(id) is None ==> friend_entry(it) == Err::<(u64, Seq<char>), ShapeError>(
            ShapeError::BadNumber,
        ),
{
}

/// A page of private chats gives one friend per chat, in order: as many
/// friends as chats, friend `i` read from chat `i`. The page is read
/// exactly when every chat is, and otherwise fails with the error of its
/// first malformed chat.
pub proof fn law_friends_one_per_item(items: Seq<JsonV>)
    ensures
        friends_spec(items) matches Ok(fs) ==> fs.len() == items.len() && forall|i: int|
            0 <= i < items.len() ==> #[trigger] friend_entry(items[i]) == Ok::<
                (u64, Seq<char>),
                ShapeError,
            >(fs[i]),
        friends_spec(items) is Ok <==> forall|i: int|
            0 <= i < items.len() ==> #[trigger] friend_entry(items[i]) is Ok,
        friends_spec(items) matches Err(e) ==> exists|i: int|
            0 <= i < items.len() && #[trigger] friend_entry(items[i]) == Err::<
                (u64, Seq<char>),
                ShapeError,
            >(e) && forall|j: int| 0 <= j < i ==> #[trigger] friend_entry(items[j]) is Ok,
    decreases items.len(),
{
    if items.len() > 0 {
        let pre = items.drop_last();
        law_friends_one_per_item(pre);
        assert forall|i: int| 0 <= i < pre.len() implies #[trigger] pre[i] == items[i] by {}
        let last = items.len() - 1;
        assert(items.last() == items[last]);
        match friends_spec(pre) {
            Ok(fs0) => {
                assert(forall|i: int| 0 <= i < pre.len() ==> #[trigger] friend_entry(pre[i]) is Ok);
                match friend_entry(items[last]) {
                    Ok(f) => {
                        let fs = fs0.push(f);
                        assert forall|i: int| 0 <= i < items.len() implies #[trigger] friend_entry(
                            items[i],
                        ) == Ok::<(u64, Seq<char>), ShapeError>(fs[i]) by {
                            if i < last {
                                assert(pre[i] == items[i]);
                                assert(friend_entry(pre[i]) == Ok::<(u64, Seq<char>), ShapeError>(
                                    fs0[i],
                                ));
                            }
                        }
                    },
                    Err(e) => {
                        assert forall|j: int| 0 <= j < last implies #[trigger] friend_entry(
                            items[j],
                        ) is Ok by {
                            assert(pre[j] == items[j]);
                            assert(friend_entry(pre[j]) is Ok);
                        }
                    },
                }
            },
            Err(e) => {
                let i = choose|i: int|
                    0 <= i < pre.len() && #[trigger] friend_entry(pre[i]) == Err::<
                        (u64, Seq<char>),
                        ShapeError,
                    >(e) && forall|j: int| 0 <= j < i ==> #[trigger] friend_entry(pre[j]) is Ok;
                assert(pre[i] == items[i]);
                assert forall|j: int| 0 <= j < i implies #[trigger] friend_entry(items[j]) is Ok by {
                    assert(pre[j] == items[j]);
                    assert(friend_entry(pre[j]) is Ok);
                }
                assert(!(friend_entry(items[i]) is Ok));
            },
        }
    }
}

/// One channel of a channel list: a text channel (type 1) that is not a
/// category is a group whose id is the channel's id read as a number (the
/// whole `u64`), and whose name is the channel's; any other channel is
/// passed over.
pub proof fn law_channel_entry(it: JsonV, id: Seq<char>, name: Seq<char>)
    requires
        str_member(it, "id"@) == Ok::<Seq<char>, ShapeError>(id),
        str_member(it, "name"@) == Ok::<Seq<char>, ShapeError>(name),
    ensures
        i64_member(it, "type"@) == Ok::<i64, ShapeError>(1) && bool_member(it, "is_category"@)
            == Ok::<bool, ShapeError>(false) ==> channel_entry(it) == match parse_u64_spec(id) {
            Some(n) => Ok::<Option<(u64, Seq<char>)>, ShapeError>(Some((n, name))),
            None => Err(ShapeError::BadNumber),
        },
        i64_member(it, "type"@) matches Ok(tp) && bool_member(it, "is_category"@) matches Ok(c) && (
        tp != 1 || c) ==> channel_entry(it) == Ok::<Option<(u64, Seq<char>)>, ShapeError>(None),
{
}

/// Where the groups of a channel list stand in it: one position per group,
/// increasing, the channel there giving that group, and every channel that
/// gives a group is among them.
pub open spec fn kept_at(items: Seq<JsonV>, gs: Seq<(u64, Seq<char>)>, pos: Seq<int>) -> bool {
    &&& pos.len() == gs.len()
    &&& forall|k: int|
        0 <= k < pos.len() ==> 0 <= #[trigger] pos[k] < items.len() && channel_entry(items[pos[k]])
            == Ok::<Option<(u64, Seq<char>)>, ShapeError>(Some(gs[k]))
    &&& forall|k: int, l: int| 0 <= k < l < pos.len() ==> pos[k] < pos[l]
    &&& forall|i: int|
        0 <= i < items.len() && (#[trigger] channel_entry(items[i]) matches Ok(Some(_))) ==> exists|
            k: int,
        | 0 <= k < pos.len() && pos[k] == i
}

proof fn lemma_channels_kept(items: Seq<JsonV>) -> (pos: Seq<int>)
    requires
        channels_spec(items) is Ok,
    ensures
        kept_at(items, channels_spec(items)->Ok_0, pos),
    decreases items.len(),
{
    if items.len() == 0 {
        Seq::empty()
    } else {
        let pre = items.drop_last();
        let last = items.len() - 1;
        assert(items.last() == items[last]);
        let pos0 = lemma_channels_kept(pre);
        let gs0 = channels_spec(pre)->Ok_0;
        assert forall|i: int| 0 <= i < pre.len() implies #[trigger] pre[i] == items[i] by {}
        let pos = match channel_entry(items[last]) {
            Ok(Some(g)) => pos0.push(last),
            _ => pos0,
        };
        let gs = channels_spec(items)->Ok_0;
        assert forall|k: int| 0 <= k < pos.len() implies 0 <= #[trigger] pos[k] < items.len()
            && channel_entry(items[pos[k]]) == Ok::<Option<(u64, Seq<char>)>, ShapeError>(
            Some(gs[k]),
        ) by {
            if k < pos0.len() {
                assert(pos[k] == pos0[k]);
                assert(pre[pos0[k]] == items[pos0[k]]);
            }
        }
        assert forall|i: int|
            0 <= i < items.len() && (#[trigger] channel_entry(items[i]) matches Ok(Some(_))) implies exists|
            k: int,
        | 0 <= k < pos.len() && pos[k] == i by {
            if i < last {
                assert(pre[i] == items[i]);
                let k = choose|k: int| 0 <= k < pos0.len() && pos0[k] == i;
                assert(pos[k] == i);
            } else {
                assert(pos[pos.len() - 1] == i);
            }
        }
        pos
    }
}

/// The groups of a channel list are the channels that give a group (see
/// `law_channel_entry`), all of them, in the list's order; the list is read
/// exactly when every channel is.
pub proof fn law_channels_kept_in_order(items: Seq<JsonV>)
    ensures
        channels_spec(items) matches Ok(gs) ==> exists|pos: Seq<int>| #[trigger] kept_at(items, gs, pos),
        channels_spec(items) is Ok <==> forall|i: int|
            0 <= i < items.len() ==> #[trigger] channel_entry(items[i]) is Ok,
    decreases items.len(),
{
    if channels_spec(items) is Ok {
        let pos = lemma_channels_kept(items);
    }
    if items.len() > 0 {
        let pre = items.drop_last();
        law_channels_kept_in_order(pre);
        assert forall|i: int| 0 <= i < pre.len() implies #[trigger] pre[i] == items[i] by {}
        let last = items.len() - 1;
        assert(items.last() == items[last]);
        if channels_spec(pre) is Ok {
            assert forall|i: int| 0 <= i < pre.len() implies #[trigger] channel_entry(items[i]) is Ok by {
                assert(channel_entry(pre[i]) is Ok);
            }
        } else {
            let i = choose|i: int| 0 <= i < pre.len() && !(#[trigger] channel_entry(pre[i]) is Ok);
            assert(pre[i] == items[i]);
        }
    }
}

/// A member-list page gives one member per entry, in order: as many
/// members as entries, member `i` read from entry `i` (its `id` as the
/// user). The page is read exactly when every entry is, and otherwise
/// fails with the error of its first malformed entry.
pub proof fn law_members_one_per_item(group_id: Seq<char>, items: Seq<JsonV>, guild_view: JsonV)
    ensures
        members_spec(group_id, items, guild_view) matches Ok(ms) ==> ms.len() == items.len()
            && forall|i: int|
            0 <= i < items.len() ==> #[trigger] member_entry(group_id, items[i], guild_view) == Ok::<
                MemberInfoV,
                ShapeError,
            >(ms[i]),
        members_spec(group_id, items, guild_view) is Ok <==> forall|i: int|
            0 <= i < items.len() ==> #[trigger] member_entry(group_id, items[i], guild_view) is Ok,
        members_spec(group_id, items, guild_view) matches Err(e) ==> exists|i: int|
            0 <= i < items.len() && #[trigger] member_entry(group_id, items[i], guild_view) == Err::<
                MemberInfoV,
                ShapeError,
            >(e) && forall|j: int|
                0 <= j < i ==> #[trigger] member_entry(group_id, items[j], guild_view) is Ok,
    decreases items.len(),
{
    if items.len() > 0 {
        let pre = items.drop_last();
        law_members_one_per_item(group_id, pre, guild_view);
        assert forall|i: int| 0 <= i < pre.len() implies #[trigger] pre[i] == items[i] by {}
        let last = items.len() - 1;
        assert(items.last() == items[last]);
        match members_spec(group_id, pre, guild_view) {
            Ok(ms0) => {
                match member_entry(group_id, items[last], guild_view) {
                    Ok(m) => {
                        let ms = ms0.push(m);
                        assert forall|i: int| 0 <= i < items.len() implies #[trigger] member_entry(
                            group_id,
                            items[i],
                            guild_view,
                        ) == Ok::<MemberInfoV, ShapeError>(ms[i]) by {
                            if i < last {
                                assert(pre[i] == items[i]);
                                assert(member_entry(group_id, pre[i], guild_view) == Ok::<
                                    MemberInfoV,
                                    ShapeError,
                                >(ms0[i]));
                            }
                        }
                    },
                    Err(e) => {
                        assert forall|j: int| 0 <= j < last implies #[trigger] member_entry(
                            group_id,
                            items[j],
                            guild_view,
                        ) is Ok by {
                            assert(pre[j] == items[j]);
                            assert(member_entry(group_id, pre[j], guild_view) is Ok);
                        }
                    },
                }
            },
            Err(e) => {
                let i = choose|i: int|
                    0 <= i < pre.len() && #[trigger] member_entry(group_id, pre[i], guild_view)
                        == Err::<MemberInfoV, ShapeError>(e) && forall|j: int|
                        0 <= j < i ==> #[trigger] member_entry(group_id, pre[j], guild_view) is Ok;
                assert(pre[i] == items[i]);
                assert forall|j: int| 0 <= j < i implies #[trigger] member_entry(
                    group_id,
                    items[j],
                    guild_view,
                ) is Ok by {
                    assert(pre[j] == items[j]);
                    assert(member_entry(group_id, pre[j], guild_view) is Ok);
                }
                assert(!(member_entry(group_id, items[i], guild_view) is Ok));
            },
        }
    }
}

/// A guild list gives one id per guild, in order: id `i` is the string
/// `id` of guild `i`; the list is read exactly when every guild has one,
/// and otherwise fails with the error of the first guild without.
pub proof fn law_guild_ids_one_per_item(items: Seq<JsonV>)
    ensures
        guild_ids_spec(items) matches Ok(ids) ==> ids.len() == items.len() && forall|i: int|
            0 <= i < items.len() ==> #[trigger] str_member(items[i], "id"@) == Ok::<
                Seq<char>,
                ShapeError,
            >(ids[i]),
        guild_ids_spec(items) is Ok <==> forall|i: int|
            0 <= i < items.len() ==> #[trigger] str_member(items[i], "id"@) is Ok,
        guild_ids_spec(items) matches Err(e) ==> exists|i: int|
            0 <= i < items.len() && #[trigger] str_member(items[i], "id"@) == Err::<
                Seq<char>,
                ShapeError,
            >(e) && forall|j: int| 0 <= j < i ==> #[trigger] str_member(items[j], "id"@) is Ok,
    decreases items.len(),
{
    if items.len() > 0 {
        let pre = items.drop_last();
        law_guild_ids_one_per_item(pre);
        assert forall|i: int| 0 <= i < pre.len() implies #[trigger] pre[i] == items[i] by {}
        let last = items.len() - 1;
        assert(items.last() == items[last]);
        match guild_ids_spec(pre) {
            Ok(ids0) => {
                match str_member(items[last], "id"@) {
                    Ok(id) => {
                        let ids = ids0.push(id);
                        assert forall|i: int| 0 <= i < items.len() implies #[trigger] str_member(
                            items[i],
                            "id"@,
                        ) == Ok::<Seq<char>, ShapeError>(ids[i]) by {
                            if i < last {
                                assert(pre[i] == items[i]);
                                assert(str_member(pre[i], "id"@) == Ok::<Seq<char>, ShapeError>(
                                    ids0[i],
                                ));
                            }
                        }
                    },
                    Err(e) => {
                        assert forall|j: int| 0 <= j < last implies #[trigger] str_member(
                            items[j],
                            "id"@,
                        ) is Ok by {
                            assert(pre[j] == items[j]);
                            assert(str_member(pre[j], "id"@) is Ok);
                        }
                    },
                }
            },
            Err(e) => {
                let i = choose|i: int|
                    0 <= i < pre.len() && #[trigger] str_member(pre[i], "id"@) == Err::<
                        Seq<char>,
                        ShapeError,
                    >(e) && forall|j: int| 0 <= j < i ==> #[trigger] str_member(pre[j], "id"@) is Ok;
                assert(pre[i] == items[i]);
                assert forall|j: int| 0 <= j < i implies #[trigger] str_member(items[j], "id"@) is Ok by {
                    assert(pre[j] == items[j]);
                    assert(str_member(pre[j], "id"@) is Ok);
                }
                assert(!(str_member(items[i], "id"@) is Ok));
            },
        }
    }
}

} // verus!
