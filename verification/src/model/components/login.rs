use vstd::prelude::*;

use crate::errors::error::{MqttErrorModel, MqttResult};
use crate::model::components::encoded_string::{
    decode_encoded_string, encode_encoded_string, EncodedString, EncodedStringModel,
};
use crate::stream::{is_suffix, ByteStream};

verus! {

/// Represents a login in MQTT.
#[derive(Debug, PartialEq)]
pub struct Login {
    pub username: EncodedString,
    pub password: Option<EncodedString>,
}

/// The value of a [`Login`].
pub struct LoginModel {
    pub username: EncodedStringModel,
    pub password: Option<EncodedStringModel>,
}

impl View for Login {
    type V = LoginModel;

    open spec fn view(&self) -> LoginModel {
        LoginModel {
            username: self.username@,
            password: match &self.password {
                Some(p) => Some(p@),
                None => None,
            },
        }
    }
}

/// Reading a login from the front of `s`: an encoded username, then an encoded password when
/// `has_password` says there is one.
pub open spec fn decode_login(s: Seq<u8>, has_password: bool) -> Result<(LoginModel, Seq<u8>), MqttErrorModel> {
    match decode_encoded_string(s) {
        Err(e) => Err(e),
        Ok((username, rest)) => if has_password {
            match decode_encoded_string(rest) {
                Err(e) => Err(e),
                Ok((password, rest2)) => Ok((LoginModel { username, password: Some(password) }, rest2)),
            }
        } else {
            Ok((LoginModel { username, password: None }, rest))
        },
    }
}

/// The bytes of a login: the encoded username, then the encoded password when there is one.
pub open spec fn encode_login(l: LoginModel) -> Seq<u8> {
    encode_encoded_string(l.username) + match l.password {
        Some(p) => encode_encoded_string(p),
        None => Seq::<u8>::empty(),
    }
}

impl Login {
    pub fn new(username: EncodedString, password: Option<EncodedString>) -> (login: Login)
        ensures
            login.username == username,
            login.password == password,
    {
        Login { username, password }
    }

    /// Converts a stream of bytes into a Login.
    pub fn from_bytes(stream: &mut ByteStream, has_password: bool) -> (result: MqttResult<Login>)
        ensures
            match decode_login(old(stream)@, has_password) {
                Ok((l, rest)) => result matches Ok(login) && login@ == l && final(stream)@ == rest,
                Err(e) => result matches Err(err) && err@ == e,
            },
            is_suffix(final(stream)@, old(stream)@),
    {
        let ghost s = stream@;
        let username = EncodedString::from_bytes(stream)?;
        let ghost middle = stream@;

        let password = if has_password {
            let password = EncodedString::from_bytes(stream);
            proof {
                crate::stream::lemma_suffix_trans(stream@, middle, s);
            }
            Some(password?)
        } else {
            None
        };

        Ok(Login::new(username, password))
    }

    /// Converts the Login into a vector of bytes.
    pub fn to_bytes(&self) -> (bytes: Vec<u8>)
        ensures
            bytes@ == encode_login(self@),
    {
        let mut bytes = vec![];
        crate::bytes::append_bytes(&mut bytes, self.username.to_bytes().as_slice());

        if let Some(password) = &self.password {
            crate::bytes::append_bytes(&mut bytes, password.to_bytes().as_slice());
        }
        assert(bytes@ =~= encode_login(self@));

        bytes
    }

    /// Returns the username of the Login.
    pub fn username(&self) -> (username: &EncodedString)
        ensures
            username == &self.username,
    {
        &self.username
    }

    /// Returns a reference to the password of the Login.
    pub fn password(&self) -> (password: Option<&EncodedString>)
        ensures
            password == match &self.password {
                Some(p) => Some(p),
                None => None::<&EncodedString>,
            },
    {
        self.password.as_ref()
    }
}

/// Reading back the bytes of a login whose strings are well formed gives it back, and leaves
/// the bytes that follow.
pub proof fn lemma_login_roundtrip(l: LoginModel, rest: Seq<u8>)
    requires
        crate::model::components::encoded_string::encoded_string_wf(l.username),
        l.password matches Some(p) ==> crate::model::components::encoded_string::encoded_string_wf(p),
    ensures
        decode_login(encode_login(l) + rest, l.password is Some) == Ok::<(LoginModel, Seq<u8>), MqttErrorModel>((l, rest)),
{
    match l.password {
        Some(p) => {
            let tail = encode_encoded_string(p) + rest;
            crate::model::components::encoded_string::lemma_encoded_string_roundtrip(l.username, tail);
            crate::model::components::encoded_string::lemma_encoded_string_roundtrip(p, rest);
            assert(encode_login(l) + rest =~= encode_encoded_string(l.username) + tail);
        },
        None => {
            crate::model::components::encoded_string::lemma_encoded_string_roundtrip(l.username, rest);
            assert(encode_login(l) + rest =~= encode_encoded_string(l.username) + rest);
        },
    }
}

} // verus!
