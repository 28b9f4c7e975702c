use crate::text::{
    command_bytes, command_from, command_new, command_push_decimal, command_push_str, decimal,
    lemma_ascii_len, lemma_decimal_short,
};
use vstd::prelude::*;
use vstd::string::*;

verus! {

/// A command that the modem answers with a response of one shape.
pub trait AtRequest {
    type Response;

    /// The bytes that go out for this request.
    spec fn wire(&self) -> Seq<u8>;

    fn encode(&self) -> (text: heapless::String<256>)
        ensures
            command_bytes(text) == self.wire(),
    ;
}

/// The plain `OK` that answers a request which asks for nothing back.
#[derive(Debug)]
pub struct GenericOk;

/// AT+CBATCHK=...
#[derive(Debug)]
pub struct EnableVBatCheck(pub bool);

impl AtRequest for EnableVBatCheck {
    type Response = GenericOk;

    open spec fn wire(&self) -> Seq<u8> {
        if self.0 {
            "AT+CBATCHK=1\r".spec_bytes()
        } else {
            "AT+CBATCHK=0\r".spec_bytes()
        }
    }

    fn encode(&self) -> (text: heapless::String<256>) {
        proof {
            reveal_strlit("AT+CBATCHK=1\r");
            reveal_strlit("AT+CBATCHK=0\r");
            lemma_ascii_len("AT+CBATCHK=1\r");
            lemma_ascii_len("AT+CBATCHK=0\r");
        }
        command_from(
            if self.0 {
                "AT+CBATCHK=1\r"
            } else {
                "AT+CBATCHK=0\r"
            },
        )
    }
}

/// AT+CGNSURC=...
#[derive(Debug)]
pub struct ConfigureGnssUrc {
    /// Send URC report every <n> GNSS fix.
    /// Set to 0 to disable.
    pub period: u8,
}

impl AtRequest for ConfigureGnssUrc {
    type Response = GenericOk;

    open spec fn wire(&self) -> Seq<u8> {
        "AT+CGNSURC=".spec_bytes() + decimal(self.period as nat) + "\r".spec_bytes()
    }

    fn encode(&self) -> (text: heapless::String<256>) {
        proof {
            reveal_strlit("AT+CGNSURC=");
            reveal_strlit("\r");
            lemma_ascii_len("AT+CGNSURC=");
            lemma_ascii_len("\r");
            lemma_decimal_short(self.period as nat);
        }
        let mut buf = command_new();
        let head = command_push_str(&mut buf, "AT+CGNSURC=");
        let number = command_push_decimal(&mut buf, self.period as usize);
        let tail = command_push_str(&mut buf, "\r");
        assert(head is Ok && number is Ok && tail is Ok);
        buf
    }
}

/// AT+CGNSPWR=...
pub struct SetGnssPower(pub bool);

impl AtRequest for SetGnssPower {
    type Response = GenericOk;

    open spec fn wire(&self) -> Seq<u8> {
        "AT+CGNSPWR=".spec_bytes() + (if self.0 {
            "1".spec_bytes()
        } else {
            "0".spec_bytes()
        }) + "\r".spec_bytes()
    }

    fn encode(&self) -> (text: heapless::String<256>) {
        proof {
            reveal_strlit("AT+CGNSPWR=");
            reveal_strlit("1");
            reveal_strlit("0");
            reveal_strlit("\r");
            lemma_ascii_len("AT+CGNSPWR=");
            lemma_ascii_len("1");
            lemma_ascii_len("0");
            lemma_ascii_len("\r");
        }
        let mut buf = command_new();
        let arg = if self.0 {
            "1"
        } else {
            "0"
        };
        let head = command_push_str(&mut buf, "AT+CGNSPWR=");
        let value = command_push_str(&mut buf, arg);
        let tail = command_push_str(&mut buf, "\r");
        assert(head is Ok && value is Ok && tail is Ok);
        buf
    }
}

} // verus!
