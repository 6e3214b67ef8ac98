//! Solar production, consumption of a home, and its switched devices.

use sha2::Digest;
use vstd::arithmetic::power2::*;
use vstd::prelude::*;

use crate::backoff::{self, Delay};
use crate::double::Double;
use crate::markup;
use crate::numeral;
use crate::polybar_module::{PolybarModuleEnv, RenderablePolybarModule};
use crate::quotient;
use crate::text;
use crate::theme::{Color, Palette, ICON_WARNING};

verus! {

broadcast use crate::text::texts_push;

// Hashes

/// The SHA-256 hash of some bytes.
pub uninterp spec fn sha256(bytes: Seq<u8>) -> Seq<u8>;

/// `sha2::Sha256`: the hash of the bytes, which has 32 bytes. How it is computed is not stated.
#[verifier::external_body]
fn sha256_digest(bytes: &[u8]) -> (r: Vec<u8>)
    ensures
        r@ == sha256(bytes@),
        r@.len() == 32,
{
    let mut hasher = sha2::Sha256::new();
    hasher.update(bytes);
    hasher.finalize().to_vec()
}

/// Two hexadecimal digits for each byte, in lower case.
pub open spec fn hex_of(bytes: Seq<u8>) -> Seq<char>
    decreases bytes.len(),
{
    if bytes.len() == 0 {
        Seq::empty()
    } else {
        hex_of(bytes.drop_last()) + numeral::hex_text(bytes.last() as nat, 2)
    }
}

/// `hex::encode`: two hexadecimal digits for each byte, in lower case.
#[verifier::external_body]
fn hex_encode(bytes: &Vec<u8>) -> (r: String)
    ensures
        r@ == hex_of(bytes@),
{
    hex::encode(bytes)
}

/// `rand::random`: any number.
#[verifier::external_body]
fn random_u64() -> (r: u64) {
    rand::random()
}

/// The SHA-256 hash of a text, in hexadecimal.
pub open spec fn sha256_text(s: Seq<char>) -> Seq<char> {
    hex_of(sha256(vstd::utf8::encode_utf8(s)))
}

/// The SHA-256 hash of a text, in hexadecimal.
pub fn sha256_hex(s: &str) -> (r: String)
    ensures
        r@ == sha256_text(s@),
{
    let hash = sha256_digest(s.as_bytes());
    hex_encode(&hash)
}

// Shelly devices

/// Answer to an authentication challenge.
#[derive(Debug, PartialEq, Eq)]
pub struct ShellyRpcAuthChallengeResponse {
    pub realm: String,
    pub username: String,
    pub nonce: u64,
    pub cnonce: u64,
    pub response: String,
    pub algorithm: String,
}

/// Authentication challenge.
#[derive(Debug, PartialEq, Eq)]
pub struct ShellyRpcAuthParams {
    pub nonce: u64,
    pub nc: u64,
    pub realm: String,
    pub algorithm: String,
}

/// Frame of a request; the parameters of the call go with it.
#[derive(Debug, PartialEq, Eq)]
pub struct ShellyRpcRequest {
    pub id: u64,
    pub method: String,
    pub auth: Option<ShellyRpcAuthChallengeResponse>,
}

/// Frame of a reply; the result of the call goes with a success.
#[derive(Debug, PartialEq, Eq)]
pub enum ShellyRpcReply {
    Success,
    Error { code: u64, message: String },
}

/// What a reply calls for.
#[derive(Debug, PartialEq, Eq)]
pub enum ShellyStep {
    /// The call has succeeded.
    Done,
    /// The call has to be made again with an answer to the challenge in the message.
    Authenticate { message: String },
    /// The call has failed.
    Failed { code: u64, message: String },
}

/// Whether a message of a device can be a reply: pings are ignored, and so is what is empty.
pub fn keeps_message(is_ping: bool, is_empty: bool) -> (r: bool)
    ensures
        r == (!is_ping && !is_empty),
{
    !is_ping && !is_empty
}

/// What identifies a session with a device.
pub struct ShellySession {
    pub auth: Option<ShellyRpcAuthChallengeResponse>,
    pub next_msg_id: u64,
    pub password: String,
}

/// Whether two answers to a challenge are equal.
pub open spec fn same_answer(
    a: ShellyRpcAuthChallengeResponse,
    b: ShellyRpcAuthChallengeResponse,
) -> bool {
    &&& a.realm@ == b.realm@
    &&& a.username@ == b.username@
    &&& a.nonce == b.nonce
    &&& a.cnonce == b.cnonce
    &&& a.response@ == b.response@
    &&& a.algorithm@ == b.algorithm@
}

pub open spec fn same_auth(
    a: Option<ShellyRpcAuthChallengeResponse>,
    b: Option<ShellyRpcAuthChallengeResponse>,
) -> bool {
    match (a, b) {
        (Some(x), Some(y)) => same_answer(x, y),
        (None, None) => true,
        _ => false,
    }
}

/// Response that proves knowledge of the password.
pub open spec fn challenge_response(
    password: Seq<char>,
    realm: Seq<char>,
    nonce: u64,
    nc: u64,
    cnonce: u64,
) -> Seq<char> {
    let ha1 = sha256_text("admin:"@ + realm + ":"@ + password);
    let ha2 = sha256_text("dummy_method:dummy_uri"@);
    sha256_text(
        ha1 + ":"@ + numeral::decimal_text(nonce as nat) + ":"@ + numeral::decimal_text(nc as nat)
            + ":"@ + numeral::decimal_text(cnonce as nat) + ":auth:"@ + ha2,
    )
}

/// Whether `r` answers a challenge with the given client nonce.
pub open spec fn answers(
    r: ShellyRpcAuthChallengeResponse,
    params: ShellyRpcAuthParams,
    password: Seq<char>,
    cnonce: u64,
) -> bool {
    &&& r.realm@ == params.realm@
    &&& r.username@ == "admin"@
    &&& r.nonce == params.nonce
    &&& r.cnonce == cnonce
    &&& r.response@ == challenge_response(
        password,
        params.realm@,
        params.nonce,
        params.nc,
        cnonce,
    )
    &&& r.algorithm@ == params.algorithm@
}

fn copy_answer(a: &ShellyRpcAuthChallengeResponse) -> (r: ShellyRpcAuthChallengeResponse)
    ensures
        same_answer(r, *a),
{
    ShellyRpcAuthChallengeResponse {
        realm: a.realm.clone(),
        username: a.username.clone(),
        nonce: a.nonce,
        cnonce: a.cnonce,
        response: a.response.clone(),
        algorithm: a.algorithm.clone(),
    }
}

impl ShellySession {
    /// A session that has not been asked to authenticate.
    pub fn new(password: &str) -> (r: Self)
        ensures
            r.auth is None,
            r.next_msg_id == 0,
            r.password@ == password@,
    {
        ShellySession { auth: None, next_msg_id: 0, password: password.to_owned() }
    }

    /// The request of a call: it has a new number, and the answer to the last challenge that was
    /// accepted.
    pub fn begin(&mut self, call: &str) -> (r: ShellyRpcRequest)
        requires
            old(self).next_msg_id < u64::MAX,
        ensures
            r.id == old(self).next_msg_id,
            r.method@ == call@,
            same_auth(r.auth, old(self).auth),
            final(self).next_msg_id == old(self).next_msg_id + 1,
            final(self).auth == old(self).auth,
            final(self).password == old(self).password,
    {
        let auth = match &self.auth {
            Some(a) => Some(copy_answer(a)),
            None => None,
        };
        let id: u64 = self.next_msg_id;
        self.next_msg_id = id + 1;
        ShellyRpcRequest { id, method: call.to_owned(), auth }
    }

    /// What the reply to the first request of a call asks for: a device that refuses it wants it
    /// again with an answer to its challenge.
    pub fn on_first_reply(&self, reply: ShellyRpcReply) -> (r: ShellyStep)
        ensures
            r == match reply {
                ShellyRpcReply::Success => ShellyStep::Done,
                ShellyRpcReply::Error { code, message } => if code == 401 {
                    ShellyStep::Authenticate { message }
                } else {
                    ShellyStep::Failed { code, message }
                },
            },
    {
        match reply {
            ShellyRpcReply::Success => ShellyStep::Done,
            ShellyRpcReply::Error { code, message } => if code == 401 {
                ShellyStep::Authenticate { message }
            } else {
                ShellyStep::Failed { code, message }
            },
        }
    }

    /// The request again, under a new number, with an answer to the challenge that uses the given
    /// client nonce.
    pub fn authenticate_with(
        &mut self,
        request: ShellyRpcRequest,
        params: ShellyRpcAuthParams,
        cnonce: u64,
    ) -> (r: ShellyRpcRequest)
        requires
            old(self).next_msg_id < u64::MAX,
        ensures
            r.id == old(self).next_msg_id,
            r.method == request.method,
            r.auth matches Some(a) && answers(a, params, old(self).password@, cnonce),
            final(self).next_msg_id == old(self).next_msg_id + 1,
            final(self).auth == old(self).auth,
            final(self).password == old(self).password,
    {
        let mut first = "admin:".to_owned();
        first.append(params.realm.as_str());
        first.append(":");
        first.append(self.password.as_str());
        let ha1 = sha256_hex(first.as_str());
        let ha2 = sha256_hex("dummy_method:dummy_uri");
        let mut s = ha1;
        s.append(":");
        let nonce = numeral::decimal(params.nonce);
        s.append(nonce.as_str());
        s.append(":");
        let nc = numeral::decimal(params.nc);
        s.append(nc.as_str());
        s.append(":");
        let cn = numeral::decimal(cnonce);
        s.append(cn.as_str());
        s.append(":auth:");
        s.append(ha2.as_str());
        let response = sha256_hex(s.as_str());
        let auth = ShellyRpcAuthChallengeResponse {
            realm: params.realm,
            username: "admin".to_owned(),
            nonce: params.nonce,
            cnonce,
            response,
            algorithm: params.algorithm,
        };
        let id: u64 = self.next_msg_id;
        self.next_msg_id = id + 1;
        ShellyRpcRequest { id, method: request.method, auth: Some(auth) }
    }

    /// The request again, under a new number, with an answer to the challenge that uses a random
    /// client nonce.
    pub fn authenticate(
        &mut self,
        request: ShellyRpcRequest,
        params: ShellyRpcAuthParams,
    ) -> (r: ShellyRpcRequest)
        requires
            old(self).next_msg_id < u64::MAX,
        ensures
            r.id == old(self).next_msg_id,
            r.method == request.method,
            r.auth matches Some(a) && answers(a, params, old(self).password@, a.cnonce),
            final(self).next_msg_id == old(self).next_msg_id + 1,
            final(self).auth == old(self).auth,
            final(self).password == old(self).password,
    {
        let cnonce = random_u64();
        self.authenticate_with(request, params, cnonce)
    }

    /// What the reply to the request with the answer asks for: an accepted answer is kept for the
    /// next calls, and a second refusal is final.
    pub fn on_second_reply(&mut self, request: ShellyRpcRequest, reply: ShellyRpcReply) -> (r:
        ShellyStep)
        ensures
            r == match reply {
                ShellyRpcReply::Success => ShellyStep::Done,
                ShellyRpcReply::Error { code, message } => ShellyStep::Failed { code, message },
            },
            final(self).auth == if reply == ShellyRpcReply::Success {
                request.auth
            } else {
                old(self).auth
            },
            final(self).next_msg_id == old(self).next_msg_id,
            final(self).password == old(self).password,
    {
        match reply {
            ShellyRpcReply::Success => {
                self.auth = request.auth;
                ShellyStep::Done
            },
            ShellyRpcReply::Error { code, message } => ShellyStep::Failed { code, message },
        }
    }
}

// Inverter registers

pub const REG_ADDR_I_AC_POWER: u16 = 0x9c93;

pub const REG_ADDR_I_AC_POWER_SF: u16 = 0x9c94;

pub const REG_ADDR_M_AC_POWER: u16 = 0x9d0e;

pub const REG_ADDR_M_AC_POWER_SF: u16 = 0x9d12;

/// A register holds no valid value.
#[derive(Clone, Copy, Debug, PartialEq, Eq, Structural)]
pub struct InvalidRegister {
    pub addr: u16,
}

/// A word read as a signed number.
pub open spec fn signed_word(w: u16) -> int {
    if w < 0x8000 {
        w as int
    } else {
        w - 0x1_0000
    }
}

/// Registers in the order in which they are read.
pub open spec fn register_at(i: nat) -> u16 {
    if i == 0 {
        REG_ADDR_I_AC_POWER
    } else if i == 1 {
        REG_ADDR_I_AC_POWER_SF
    } else if i == 2 {
        REG_ADDR_M_AC_POWER
    } else {
        REG_ADDR_M_AC_POWER_SF
    }
}

/// Value of a register, from the words that were read at its address.
pub fn modbus_read_holding_register(addr: u16, words: &Vec<u16>) -> (r: Result<
    i16,
    InvalidRegister,
>)
    requires
        words@.len() == 1,
    ensures
        match r {
            Ok(v) => words@[0] != 0x7fff && v == signed_word(words@[0]),
            Err(e) => words@[0] == 0x7fff && e.addr == addr,
        },
{
    let w: u16 = words[0];
    if w == 0x7fff {
        Err(InvalidRegister { addr })
    } else if w < 0x8000 {
        Ok(w as i16)
    } else {
        Ok((w as i32 - 0x1_0000) as i16)
    }
}

/// Values read from the inverter so far: the power and its scale, then the power that goes to the
/// grid and its scale.
pub struct InverterReading {
    pub values: Vec<i16>,
}

impl InverterReading {
    pub open spec fn wf(&self) -> bool {
        self.values@.len() <= 4
    }

    pub fn new() -> (r: Self)
        ensures
            r.wf(),
            r.values@ == Seq::<i16>::empty(),
    {
        InverterReading { values: Vec::new() }
    }

    /// The register to read next; none once all have been read.
    pub fn next_register(&self) -> (r: Option<u16>)
        requires
            self.wf(),
        ensures
            r == if self.values@.len() < 4 {
                Some(register_at(self.values@.len()))
            } else {
                None
            },
    {
        let n: usize = self.values.len();
        if n == 0 {
            Some(REG_ADDR_I_AC_POWER)
        } else if n == 1 {
            Some(REG_ADDR_I_AC_POWER_SF)
        } else if n == 2 {
            Some(REG_ADDR_M_AC_POWER)
        } else if n == 3 {
            Some(REG_ADDR_M_AC_POWER_SF)
        } else {
            None
        }
    }

    /// Takes the words that were read at the next register.
    pub fn accept(&mut self, words: &Vec<u16>) -> (r: Result<(), InvalidRegister>)
        requires
            old(self).values@.len() < 4,
            words@.len() == 1,
        ensures
            final(self).wf(),
            match r {
                Ok(_) => {
                    &&& words@[0] != 0x7fff
                    &&& final(self).values@ == old(self).values@.push(
                        signed_word(words@[0]) as i16,
                    )
                },
                Err(e) => {
                    &&& words@[0] == 0x7fff
                    &&& e.addr == register_at(old(self).values@.len())
                    &&& final(self).values@ == old(self).values@
                },
            },
    {
        let addr = match self.next_register() {
            Some(a) => a,
            None => REG_ADDR_M_AC_POWER_SF,
        };
        match modbus_read_holding_register(addr, words) {
            Ok(v) => {
                self.values.push(v);
                Ok(())
            },
            Err(e) => Err(e),
        }
    }
}

// The module

pub struct InverterModbusConfig {
    pub host: String,
    pub port: u16,
}

pub struct ShellyDeviceConfig {
    pub name: String,
    pub host: String,
    pub password: String,
}

pub struct HomePowerModuleConfig {
    pub inverter_modbus: InverterModbusConfig,
    pub shelly_devices: Vec<ShellyDeviceConfig>,
}

pub struct HomePowerModule {
    pub cfg: HomePowerModuleConfig,
    pub env: PolybarModuleEnv,
}

#[derive(Debug, PartialEq, Eq)]
pub struct HomePowerModuleState {
    pub solar_power: u32,
    pub home_consumption_power: u32,
    pub grid_power: u32,
    pub devices: Vec<HomeDevice>,
}

#[derive(Debug, PartialEq, Eq)]
pub struct HomeDevice {
    pub name: String,
    pub status: Option<HomeDeviceStatus>,
}

#[derive(Clone, Copy, Debug, PartialEq, Eq, Structural)]
pub struct HomeDeviceStatus {
    pub enabled: bool,
    pub power: u32,
}

/// Status of a switch, as its device reports it.
#[derive(Clone, Copy, Debug, PartialEq, Eq, Structural)]
pub struct SwitchStatus {
    pub output: bool,
    pub apower: Option<Double>,
}

pub open spec fn watts(v: Double) -> int {
    v.truncated_into(0, u32::MAX as int)
}

/// Status of a device, from what it reported, if it did.
pub open spec fn device_status(reported: Option<SwitchStatus>) -> Option<HomeDeviceStatus> {
    match reported {
        Some(s) => Some(
            HomeDeviceStatus {
                enabled: s.output,
                power: match s.apower {
                    Some(v) => watts(v) as u32,
                    None => 0,
                },
            },
        ),
        None => None,
    }
}

pub fn home_device(name: &str, reported: Option<SwitchStatus>) -> (r: HomeDevice)
    ensures
        r.name@ == name@,
        r.status == device_status(reported),
{
    let status = match reported {
        Some(s) => {
            let power: u32 = match s.apower {
                Some(v) => v.truncate_into(0, u32::MAX as i64) as u32,
                None => 0,
            };
            Some(HomeDeviceStatus { enabled: s.output, power })
        },
        None => None,
    };
    HomeDevice { name: name.to_owned(), status }
}

/// State from what was measured, in watts: the whole watts of each, none where a measure is
/// negative or no number; what goes to the grid and what comes from it alike.
pub fn home_power_state(
    solar_power: Double,
    home_consumption_power: Double,
    grid_export: Double,
    devices: Vec<HomeDevice>,
) -> (r: HomePowerModuleState)
    ensures
        r.solar_power == watts(solar_power),
        r.home_consumption_power == watts(home_consumption_power),
        r.grid_power == watts(grid_export.absolute()),
        r.devices == devices,
{
    HomePowerModuleState {
        solar_power: solar_power.truncate_into(0, u32::MAX as i64) as u32,
        home_consumption_power: home_consumption_power.truncate_into(0, u32::MAX as i64) as u32,
        grid_power: grid_export.abs().truncate_into(0, u32::MAX as i64) as u32,
        devices,
    }
}

impl HomePowerModule {
    pub fn new(cfg: HomePowerModuleConfig, env: PolybarModuleEnv) -> (r: Self)
        ensures
            r.cfg == cfg,
            r.env == env,
    {
        HomePowerModule { cfg, env }
    }

    /// Wait before the next update, and whether the inverter is to be connected to anew; `last`
    /// tells whether the last update succeeded.
    pub fn wait_update(&mut self, last: Option<bool>) -> (r: (Delay, bool))
        requires
            old(self).env.wf(),
        ensures
            final(self).cfg == old(self).cfg,
            final(self).env.same_files(old(self).env),
            backoff::waits(
                old(self).env.network_error_backoff,
                final(self).env.network_error_backoff,
                last,
                1_000_000_000,
                r.0,
            ),
            r.1 == (last == Some(false)),
    {
        let delay = self.env.network_error_backoff.delay_after(last, 1_000_000_000);
        let reconnect = match last {
            Some(ok) => !ok,
            None => false,
        };
        (delay, reconnect)
    }
}

/// Kilowatts with one digit behind the point.
pub open spec fn kilowatts(power: u32) -> Seq<char> {
    quotient::tenths_text(quotient::tenths_of(power as nat, 1000))
}

pub open spec fn device_fragment(d: HomeDevice) -> Seq<char> {
    markup::styled(
        Palette::SolarizedDark,
        d.name@,
        if d.status is None {
            Some(Color::Unfocused)
        } else {
            None
        },
        match d.status {
            Some(s) => if s.enabled && s.power > 0 {
                Some(Color::Notice)
            } else if s.enabled {
                Some(Color::Foreground)
            } else {
                None
            },
            None => None,
        },
    )
}

pub open spec fn device_fragments(devices: Seq<HomeDevice>) -> Seq<Seq<char>> {
    Seq::new(devices.len(), |i: int| device_fragment(devices[i]))
}

/// The way that the power goes between the roof and the home: nowhere without sun.
pub open spec fn solar_flow(state: HomePowerModuleState) -> Seq<char> {
    if state.solar_power > 0 {
        "\u{e912}"@
    } else {
        " "@
    }
}

/// The way that the power goes between the home and the grid.
pub open spec fn grid_flow(state: HomePowerModuleState) -> Seq<char> {
    if state.solar_power > state.home_consumption_power {
        "\u{e912}"@
    } else if state.solar_power < state.home_consumption_power {
        "\u{e910}"@
    } else {
        " "@
    }
}

pub open spec fn state_text(state: HomePowerModuleState) -> Seq<char> {
    markup::styled(Palette::SolarizedDark, "\u{ea06}"@, Some(Color::MainIcon), None) + " "@
        + "\u{ee81}"@ + kilowatts(state.solar_power) + solar_flow(state) + "\u{f1903}"@ + kilowatts(
        state.home_consumption_power,
    ) + grid_flow(state) + "\u{f0d3e}"@ + kilowatts(state.grid_power) + "kW"@ + if state.devices@.len()
        == 0 {
        Seq::empty()
    } else {
        " "@ + text::joined(device_fragments(state.devices@), " "@)
    }
}

fn append_kilowatts(r: &mut String, power: u32)
    ensures
        final(r)@ == old(r)@ + kilowatts(power),
{
    let s = quotient::one_decimal(quotient::tenths(power, 1000));
    r.append(s.as_str());
}

fn device_markup(d: &HomeDevice) -> (r: String)
    ensures
        r@ == device_fragment(*d),
{
    let fg = match d.status {
        None => Some(Color::Unfocused),
        Some(_) => None,
    };
    let underline = match d.status {
        Some(s) => if s.enabled && s.power > 0 {
            Some(Color::Notice)
        } else if s.enabled {
            Some(Color::Foreground)
        } else {
            None
        },
        None => None,
    };
    markup::style(Palette::SolarizedDark, d.name.as_str(), fg, underline)
}

impl RenderablePolybarModule for HomePowerModule {
    type State = Option<HomePowerModuleState>;

    open spec fn renderable(&self, state: &Option<HomePowerModuleState>) -> bool {
        true
    }

    open spec fn rendered(&self, state: &Option<HomePowerModuleState>) -> Seq<char> {
        match state {
            Some(s) => state_text(*s),
            None => markup::styled(
                Palette::SolarizedDark,
                ICON_WARNING@,
                Some(Color::Attention),
                None,
            ),
        }
    }

    fn can_render(&self, state: &Option<HomePowerModuleState>) -> (r: bool) {
        true
    }

    fn render(&self, state: &Option<HomePowerModuleState>) -> (r: String) {
        match state {
            Some(state) => {
                let mut r = markup::style(
                    Palette::SolarizedDark,
                    "\u{ea06}",
                    Some(Color::MainIcon),
                    None,
                );
                r.append(" ");
                r.append("\u{ee81}");
                append_kilowatts(&mut r, state.solar_power);
                r.append(
                    if state.solar_power > 0 {
                        "\u{e912}"
                    } else {
                        " "
                    },
                );
                r.append("\u{f1903}");
                append_kilowatts(&mut r, state.home_consumption_power);
                r.append(
                    if state.solar_power > state.home_consumption_power {
                        "\u{e912}"
                    } else if state.solar_power < state.home_consumption_power {
                        "\u{e910}"
                    } else {
                        " "
                    },
                );
                r.append("\u{f0d3e}");
                append_kilowatts(&mut r, state.grid_power);
                r.append("kW");
                if state.devices.len() > 0 {
                    let ghost target = device_fragments(state.devices@);
                    let mut parts: Vec<String> = Vec::new();
                    let mut i: usize = 0;
                    assert(text::texts(parts@) =~= target.take(0));
                    while i < state.devices.len()
                        invariant
                            i <= state.devices.len(),
                            target == device_fragments(state.devices@),
                            text::texts(parts@) == target.take(i as int),
                        decreases state.devices.len() - i,
                    {
                        let part = device_markup(&state.devices[i]);
                        parts.push(part);
                        i += 1;
                        assert(target.take(i as int) =~= target.take(i - 1).push(target[i - 1]));
                    }
                    assert(target.take(i as int) =~= target);
                    r.append(" ");
                    let all = text::join(&parts, " ");
                    r.append(all.as_str());
                }
                assert(r@ =~= state_text(*state));
                r
            },
            None => markup::style(
                Palette::SolarizedDark,
                ICON_WARNING,
                Some(Color::Attention),
                None,
            ),
        }
    }
}

// What the arrows stand for

/// The way shown between the home and the grid goes to the grid exactly if more is produced than
/// consumed, to the home exactly if less is, and nowhere if both are equal.
pub proof fn the_balance_decides_the_way(state: HomePowerModuleState)
    ensures
        grid_flow(state) == "\u{e912}"@ <==> state.solar_power > state.home_consumption_power,
        grid_flow(state) == "\u{e910}"@ <==> state.solar_power < state.home_consumption_power,
        grid_flow(state) == " "@ <==> state.solar_power == state.home_consumption_power,
        solar_flow(state) == "\u{e912}"@ <==> state.solar_power > 0,
        solar_flow(state) == " "@ <==> state.solar_power == 0,
{
    reveal_strlit("\u{e912}");
    reveal_strlit("\u{e910}");
    reveal_strlit(" ");
    assert("\u{e912}"@[0] != "\u{e910}"@[0]);
    assert("\u{e912}"@[0] != " "@[0]);
    assert("\u{e910}"@[0] != " "@[0]);
}

/// Exchanging production and consumption turns the arrow between the home and the grid round.
pub proof fn exchange_turns_the_arrow(a: HomePowerModuleState, b: HomePowerModuleState)
    requires
        a.solar_power == b.home_consumption_power,
        a.home_consumption_power == b.solar_power,
    ensures
        grid_flow(a) == "\u{e912}"@ <==> grid_flow(b) == "\u{e910}"@,
        grid_flow(a) == " "@ <==> grid_flow(b) == " "@,
{
    the_balance_decides_the_way(a);
    the_balance_decides_the_way(b);
}

/// A word stands for the number of 16 bits with its sign that is equal to it but for multiples of
/// two to the power of 16.
pub proof fn words_are_signed(w: u16)
    ensures
        -0x8000 <= signed_word(w) < 0x8000,
        signed_word(w) == w || signed_word(w) == w - 0x1_0000,
        signed_word(0xffff) == -1,
{
}

/// The registers are those of the power of the inverter and of the meter, each with its scale
/// behind it.
pub proof fn scales_follow_their_values()
    ensures
        register_at(0) == 0x9c93,
        register_at(1) == 0x9c94,
        register_at(2) == 0x9d0e,
        register_at(3) == 0x9d12,
{
}

/// A device that did not report has no status; one that did is enabled exactly if its switch is on,
/// and takes as many watts as it told, none where it told none.
pub proof fn devices_are_as_reported(output: bool, apower: Option<Double>)
    ensures
        device_status(None) is None,
        device_status(Some(SwitchStatus { output, apower })) matches Some(s) && s.enabled == output
            && (apower is None ==> s.power == 0) && (apower matches Some(v) ==> s.power
            == v.truncated_into(0, u32::MAX as int)),
{
}

/// A device without a status is faded; else a line stands under it exactly if it is enabled, of
/// which the color tells whether it takes any power.
pub proof fn devices_are_marked(d: HomeDevice)
    ensures
        d.status is None ==> device_fragment(d) == markup::colored(
            Palette::SolarizedDark,
            d.name@,
            Color::Unfocused,
        ),
        d.status matches Some(s) ==> device_fragment(d) == if !s.enabled {
            d.name@
        } else if s.power == 0 {
            markup::underlined(Palette::SolarizedDark, d.name@, Color::Foreground)
        } else {
            markup::underlined(Palette::SolarizedDark, d.name@, Color::Notice)
        },
{
}

/// Two answers to a challenge are equal exactly if all of their fields are.
pub proof fn answers_agree_in_all_fields(
    a: ShellyRpcAuthChallengeResponse,
    b: ShellyRpcAuthChallengeResponse,
)
    ensures
        same_answer(a, b) <==> (a.realm@, a.username@, a.nonce, a.cnonce, a.response@, a.algorithm@)
            == (b.realm@, b.username@, b.nonce, b.cnonce, b.response@, b.algorithm@),
        same_auth(Some(a), Some(b)) <==> same_answer(a, b),
        same_auth(None, None),
        !same_auth(Some(a), None),
        !same_auth(None, Some(b)),
{
}

/// An answer repeats the realm, the nonce and the algorithm of its challenge, is that of the
/// administrator, and proves knowledge of the password by the hash of the hash of the user, the realm
/// and the password, of the nonces and of the hash of a call that is the same for all.
pub proof fn answers_follow_the_challenge(
    r: ShellyRpcAuthChallengeResponse,
    params: ShellyRpcAuthParams,
    password: Seq<char>,
    cnonce: u64,
)
    requires
        answers(r, params, password, cnonce),
    ensures
        r.realm@ == params.realm@,
        r.username@ == "admin"@,
        r.nonce == params.nonce,
        r.cnonce == cnonce,
        r.algorithm@ == params.algorithm@,
        r.response@ == hex_of(
            sha256(
                vstd::utf8::encode_utf8(
                    hex_of(
                        sha256(
                            vstd::utf8::encode_utf8(
                                "admin:"@ + params.realm@ + ":"@ + password,
                            ),
                        ),
                    ) + ":"@ + numeral::decimal_text(params.nonce as nat) + ":"@
                        + numeral::decimal_text(params.nc as nat) + ":"@ + numeral::decimal_text(
                        cnonce as nat,
                    ) + ":auth:"@ + hex_of(
                        sha256(vstd::utf8::encode_utf8("dummy_method:dummy_uri"@)),
                    ),
                ),
            ),
        ),
{
}

/// Two hexadecimal digits stand for each byte, the higher one first.
pub proof fn bytes_have_two_digits(bytes: Seq<u8>, i: int)
    requires
        0 <= i < bytes.len(),
    ensures
        hex_of(bytes).len() == 2 * bytes.len(),
        hex_of(bytes)[2 * i] == "0123456789abcdef"@[bytes[i] as int / 16],
        hex_of(bytes)[2 * i + 1] == "0123456789abcdef"@[bytes[i] as int % 16],
    decreases bytes.len(),
{
    reveal_strlit("0123456789abcdef");
    reveal_with_fuel(numeral::hex_text, 3);
    let t = numeral::hex_text(bytes.last() as nat, 2);
    assert(t.len() == 2);
    if bytes.len() > 1 {
        let before = bytes.drop_last();
        bytes_have_two_digits(before, 0);
        if i < before.len() {
            bytes_have_two_digits(before, i);
            assert(before[i] == bytes[i]);
        }
    } else {
        assert(hex_of(bytes.drop_last()).len() == 0);
    }
}

/// A measure is shown in whole watts, and one below zero, or that is no number, as none.
pub proof fn measures_are_whole_watts(v: Double)
    ensures
        0 <= watts(v) <= u32::MAX,
        v.is_nan() || v.negative() ==> watts(v) == 0,
        !v.is_nan() && !v.negative() && 0 < watts(v) < u32::MAX ==> watts(v) * pow2(1074)
            <= v.units() < (watts(v) + 1) * pow2(1074),
{
    if !v.is_nan() && !v.negative() && 0 < watts(v) < u32::MAX {
        crate::double::cutting_loses_less_than_one(v, 0, u32::MAX as int);
    }
}

/// Power that goes to the grid is shown like power that comes from it.
pub proof fn both_ways_are_shown_alike(v: Double, w: Double)
    requires
        v.bits % 0x8000_0000_0000_0000 == w.bits % 0x8000_0000_0000_0000,
    ensures
        watts(v.absolute()) == watts(w.absolute()),
        !v.absolute().negative(),
        v.absolute().magnitude() == v.magnitude(),
{
    let a = v.absolute();
    assert(a.bits / 0x10_0000_0000_0000 % 2048 == v.bits / 0x10_0000_0000_0000 % 2048);
    assert(a.bits % 0x10_0000_0000_0000 == v.bits % 0x10_0000_0000_0000);
}

}
