//! The records of the demonstration server and how they are written as JSON.

use vstd::prelude::*;
use vstd::string::*;
use crate::server::json::grammar;
use crate::server::json::model::JsonValue;
use crate::server::json::roundtrip;
use crate::server::json::writer::{ObjectWriter, ToJson};

verus! {

/// Something a user may use.
pub struct Resource {
    pub id: String,
    pub friendly_name: String,
}

/// What a user gets on login.
pub struct LoginData {
    pub username: String,
    pub password: String,
    pub resources: Vec<Resource>,
    pub is_superuser: bool,
}

impl ToJson for Resource {
    open spec fn json_value(&self) -> JsonValue {
        JsonValue::Object(
            seq![
                ("id"@, JsonValue::Text(self.id@)),
                ("friendly_name"@, JsonValue::Text(self.friendly_name@)),
            ],
        )
    }

    fn to_json(&self) -> (out: String) {
        let mut w = ObjectWriter::new();
        w.member("id", &self.id);
        w.member("friendly_name", &self.friendly_name);
        assert(w.members() =~= self.json_value()->Object_0);
        w.finish()
    }
}

impl ToJson for LoginData {
    open spec fn json_value(&self) -> JsonValue {
        JsonValue::Object(
            seq![
                ("username"@, JsonValue::Text(self.username@)),
                ("password"@, JsonValue::Text(self.password@)),
                ("resources"@, self.resources.json_value()),
                ("is_superuser"@, JsonValue::Boolean(self.is_superuser)),
            ],
        )
    }

    fn to_json(&self) -> (out: String) {
        let mut w = ObjectWriter::new();
        w.member("username", &self.username);
        w.member("password", &self.password);
        w.member("resources", &self.resources);
        w.member("is_superuser", &self.is_superuser);
        assert(w.members() =~= self.json_value()->Object_0);
        w.finish()
    }
}

impl Resource {
    /// A resource that is written and read back is the same resource: the
    /// text gives its two fields again, each under its name.
    pub proof fn lemma_read_back(&self)
        ensures
            self.json_value().well_formed(),
            grammar::parse_document(crate::server::json::writer::write_value(self.json_value()))
                == Some(self.json_value()),
    {
        reveal_strlit("id");
        reveal_strlit("friendly_name");
        assert("id"@.len() == 2 && "friendly_name"@.len() == 13);
        let members = self.json_value()->Object_0;
        assert(members.len() == 2);
        assert(members[0].0 == "id"@ && members[1].0 == "friendly_name"@);
        assert(JsonValue::Text(self.id@).well_formed());
        assert(JsonValue::Text(self.friendly_name@).well_formed());
        assert forall|i: int| 0 <= i < members.len() implies (#[trigger] members[i]).1.well_formed() by {
            if i == 0 {
            } else {
                assert(i == 1);
            }
        }
        assert(crate::server::json::model::unique_keys(members));
        roundtrip::lemma_write_then_parse(self.json_value());
    }
}

impl LoginData {
    /// Login data that is written and read back is the same data: the text
    /// gives its four fields again, each under its name, and the resources in
    /// their order.
    pub proof fn lemma_read_back(&self)
        ensures
            self.json_value().well_formed(),
            grammar::parse_document(crate::server::json::writer::write_value(self.json_value()))
                == Some(self.json_value()),
    {
        reveal_strlit("username");
        reveal_strlit("password");
        reveal_strlit("resources");
        reveal_strlit("is_superuser");
        assert("username"@.len() == 8 && "password"@.len() == 8 && "resources"@.len() == 9
            && "is_superuser"@.len() == 12);
        assert("username"@[0] == 'u' && "password"@[0] == 'p');
        let resources = self.resources.json_value()->Array_0;
        assert forall|i: int| 0 <= i < resources.len() implies (
        #[trigger] resources[i]).well_formed() by {
            self.resources@[i].lemma_read_back();
        }
        assert(self.resources.json_value().well_formed());
        let members = self.json_value()->Object_0;
        assert(members.len() == 4);
        assert(members[0].0 == "username"@ && members[1].0 == "password"@ && members[2].0
            == "resources"@ && members[3].0 == "is_superuser"@);
        assert(JsonValue::Text(self.username@).well_formed());
        assert(JsonValue::Text(self.password@).well_formed());
        assert(JsonValue::Boolean(self.is_superuser).well_formed());
        assert forall|i: int| 0 <= i < members.len() implies (#[trigger] members[i]).1.well_formed() by {
            if i == 0 {
            } else if i == 1 {
            } else if i == 2 {
            } else {
                assert(i == 3);
            }
        }
        assert(crate::server::json::model::unique_keys(members));
        roundtrip::lemma_write_then_parse(self.json_value());
    }
}

} // verus!
