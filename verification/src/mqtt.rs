//! MQTT ingestion settings: every JSON `stead.live.v1` / `veil.live.v1`
//! payload published under the topic filter becomes a live event.

use vstd::prelude::*;
use vstd::string::{StrSliceExecFns, StringExecFns};

verus! {

/// Connection settings of the MQTT subscriber.
#[derive(Debug)]
pub struct MqttConfig {
    pub host: String,
    pub port: u16,
    pub username: Option<String>,
    pub password: Option<String>,
    pub topic: String,
    pub client_id: String,
}

/// The value of a string of decimal digits.
pub open spec fn digits_value(s: Seq<char>) -> nat
    decreases s.len(),
{
    if s.len() == 0 {
        0
    } else {
        digits_value(s.drop_last()) * 10 + ((s.last() as u32) - 48) as nat
    }
}

/// Every character is an ASCII digit.
pub open spec fn all_digits(s: Seq<char>) -> bool {
    forall|i: int| 0 <= i < s.len() ==> '0' <= #[trigger] s[i] <= '9'
}

/// How `str::parse::<u16>` reads a port: an optional `+`, then one or
/// more ASCII digits whose value fits in 16 bits.
pub open spec fn port_value(s: Seq<char>) -> Option<u16> {
    let digits = if s.len() > 0 && s[0] == '+' { s.drop_first() } else { s };
    if digits.len() > 0 && all_digits(digits) && digits_value(digits) <= 0xffff {
        Some(digits_value(digits) as u16)
    } else {
        None
    }
}

proof fn lemma_digits_value_grows(s: Seq<char>, i: int)
    requires
        all_digits(s),
        0 <= i <= s.len(),
    ensures
        digits_value(s.take(i)) <= digits_value(s),
    decreases s.len() - i,
{
    if i < s.len() {
        lemma_digits_value_grows(s, i + 1);
        assert(s.take(i + 1).drop_last() =~= s.take(i));
    } else {
        assert(s.take(i) =~= s);
    }
}

/// Parse a port number as `str::parse::<u16>` does.
pub fn parse_port(text: &str) -> (r: Option<u16>)
    ensures
        r == port_value(text@),
{
    let ghost s = text@;
    let n = text.unicode_len();
    let mut start: usize = 0;
    if n > 0 && text.get_char(0) == '+' {
        start = 1;
    }
    let ghost digits = if s.len() > 0 && s[0] == '+' { s.drop_first() } else { s };
    assert(digits =~= s.skip(start as int));
    if start >= n {
        return None;
    }
    let mut value: u32 = 0;
    let mut i: usize = start;
    while i < n
        invariant
            n == s.len(),
            start <= i <= n,
            s == text@,
            digits =~= s.skip(start as int),
            digits == (if s.len() > 0 && s[0] == '+' { s.drop_first() } else { s }),
            all_digits(s.subrange(start as int, i as int)),
            value == digits_value(s.subrange(start as int, i as int)),
            value <= 0xffff,
        decreases n - i,
    {
        let c = text.get_char(i);
        if c < '0' || c > '9' {
            proof {
                assert(digits[i - start] == c);
                assert(!all_digits(digits));
            }
            return None;
        }
        assert(s.subrange(start as int, i + 1).drop_last() =~= s.subrange(start as int, i as int));
        let next = value * 10 + ((c as u32) - 48);
        if next > 0xffff {
            proof {
                assert(s.subrange(start as int, i + 1).last() == c);
                assert(digits_value(s.subrange(start as int, i + 1)) == next);
                if all_digits(digits) {
                    assert(digits.take(i + 1 - start) =~= s.subrange(start as int, i + 1));
                    lemma_digits_value_grows(digits, i + 1 - start);
                }
            }
            return None;
        }
        value = next;
        i = i + 1;
    }
    assert(s.subrange(start as int, n as int) =~= digits);
    Some(value as u16)
}

impl MqttConfig {
    /// Settings from the raw values of `STEAD_MQTT_HOST` (required),
    /// `STEAD_MQTT_PORT` (default 1883, also when it is not a port),
    /// `STEAD_MQTT_USERNAME`, `STEAD_MQTT_PASSWORD`, `STEAD_MQTT_TOPIC`
    /// (default `stead/events/#`) and `STEAD_MQTT_CLIENT_ID` (default
    /// `stead-ingest`).
    pub fn from_settings(
        host: Option<String>,
        port: Option<String>,
        username: Option<String>,
        password: Option<String>,
        topic: Option<String>,
        client_id: Option<String>,
    ) -> (r: Option<MqttConfig>)
        ensures
            r is None <==> host is None,
            r matches Some(c) ==> {
                &&& c.host == host.unwrap()
                &&& c.port == (match port {
                    Some(p) => match port_value(p@) {
                        Some(v) => v,
                        None => 1883u16,
                    },
                    None => 1883u16,
                })
                &&& c.username == username
                &&& c.password == password
                &&& c.topic@ == (match topic {
                    Some(t) => t@,
                    None => "stead/events/#"@,
                })
                &&& c.client_id@ == (match client_id {
                    Some(t) => t@,
                    None => "stead-ingest"@,
                })
            },
    {
        let host = match host {
            Some(h) => h,
            None => {
                return None;
            },
        };
        let port = match &port {
            Some(p) => match parse_port(p.as_str()) {
                Some(v) => v,
                None => 1883,
            },
            None => 1883,
        };
        let topic = match topic {
            Some(t) => t,
            None => String::from_str("stead/events/#"),
        };
        let client_id = match client_id {
            Some(t) => t,
            None => String::from_str("stead-ingest"),
        };
        Some(MqttConfig { host, port, username, password, topic, client_id })
    }
}

} // verus!
