//! The state of the two forms that edit the store: the passphrase form
//! and the form of one record's fields. Drawing them is the caller's part.

use crate::models::{distinct_keys, fields_view};
use vstd::prelude::*;

verus! {

#[derive(Debug, Clone, PartialEq, Eq)]
pub enum DecryptFormMessage {
    /// The passphrase typed so far.
    KeyChanged(String),
    /// The request to open the store with this passphrase.
    Decrypt(String),
}

#[derive(Debug, Clone, PartialEq, Eq)]
pub struct DecryptForm {
    pub key: String,
}

impl DecryptForm {
    pub fn new() -> (r: Self)
        ensures
            r.key@ == Seq::<char>::empty(),
    {
        Self { key: String::new() }
    }

    /// Keeps the passphrase typed so far; a request to open the store
    /// changes nothing here.
    pub fn update(&mut self, message: DecryptFormMessage)
        ensures
            match message {
                DecryptFormMessage::KeyChanged(key) => final(self).key@ == key@,
                DecryptFormMessage::Decrypt(_) => *final(self) == *old(self),
            },
    {
        match message {
            DecryptFormMessage::KeyChanged(key) => {
                self.key = key;
            },
            DecryptFormMessage::Decrypt(_) => {},
        }
    }
}

#[derive(Debug, Clone, PartialEq, Eq)]
pub enum RecordUiMessage {
    /// The fields to store.
    Save(Vec<(String, String)>),
    /// The fields as edited so far.
    Change(Vec<(String, String)>),
    /// The name and value of the field being added.
    Edit(String, String),
}

#[derive(Debug, Clone, PartialEq, Eq)]
pub enum RecordUiState {
    Display(Vec<(String, String)>),
    Edit(Vec<(String, String)>),
}

#[derive(Debug, Clone, PartialEq, Eq)]
pub struct RecordUi {
    pub state: RecordUiState,
    pub key_to_add: String,
    pub value_to_add: String,
}

pub struct RecordUiModel {
    pub editing: bool,
    pub fields: Seq<(Seq<char>, Seq<char>)>,
    pub key_to_add: Seq<char>,
    pub value_to_add: Seq<char>,
}

impl View for RecordUi {
    type V = RecordUiModel;

    open spec fn view(&self) -> RecordUiModel {
        RecordUiModel {
            editing: self.state is Edit,
            fields: match self.state {
                RecordUiState::Display(fields) => fields_view(fields@),
                RecordUiState::Edit(fields) => fields_view(fields@),
            },
            key_to_add: self.key_to_add@,
            value_to_add: self.value_to_add@,
        }
    }
}

/// The form after a message. Only a form that is being edited changes:
/// it takes the edited fields, or the name and value being added; storing
/// the fields is the caller's part.
pub open spec fn record_ui_step(m: RecordUiModel, message: RecordUiMessage) -> RecordUiModel {
    if !m.editing {
        m
    } else {
        match message {
            RecordUiMessage::Save(_) => m,
            RecordUiMessage::Change(fields) => RecordUiModel {
                fields: fields_view(fields@),
                ..m
            },
            RecordUiMessage::Edit(key, value) => RecordUiModel {
                key_to_add: key@,
                value_to_add: value@,
                ..m
            },
        }
    }
}

/// The first `n` of `fields` but those called `name`, in their order.
pub open spec fn without_key(
    fields: Seq<(Seq<char>, Seq<char>)>,
    name: Seq<char>,
    n: nat,
) -> Seq<(Seq<char>, Seq<char>)>
    decreases n,
{
    if n == 0 || n > fields.len() {
        Seq::empty()
    } else if fields[n - 1].0 == name {
        without_key(fields, name, (n - 1) as nat)
    } else {
        without_key(fields, name, (n - 1) as nat).push(fields[n - 1])
    }
}

/// The fields that the form's save sends: the fields of the form but any
/// called as the field being added, and after them the field being added
/// with its value.
pub open spec fn saved_fields(m: RecordUiModel) -> Seq<(Seq<char>, Seq<char>)> {
    without_key(m.fields, m.key_to_add, m.fields.len()).push((m.key_to_add, m.value_to_add))
}

/// Every pair of `without_key` is one of the first `n` and is not called
/// `name`; where the fields have distinct names, so have those that stay.
pub proof fn lemma_without_key(fields: Seq<(Seq<char>, Seq<char>)>, name: Seq<char>, n: nat)
    requires
        n <= fields.len(),
    ensures
        forall|k: int|
            0 <= k < without_key(fields, name, n).len() ==> (#[trigger] without_key(
                fields,
                name,
                n,
            )[k]).0 != name && exists|j: int|
                0 <= j < n && #[trigger] fields[j] == without_key(fields, name, n)[k],
        distinct_keys(fields) ==> distinct_keys(without_key(fields, name, n)),
    decreases n,
{
    if n > 0 {
        let before = without_key(fields, name, (n - 1) as nat);
        let now = without_key(fields, name, n);
        lemma_without_key(fields, name, (n - 1) as nat);
        if fields[n - 1].0 != name {
            assert forall|k: int| 0 <= k < now.len() implies (#[trigger] now[k]).0 != name
                && exists|j: int| 0 <= j < n && #[trigger] fields[j] == now[k] by {
                if k < before.len() {
                    assert(now[k] == before[k]);
                    let j = choose|j: int| 0 <= j < n - 1 && #[trigger] fields[j] == before[k];
                    assert(fields[j] == now[k]);
                } else {
                    assert(fields[n - 1] == now[k]);
                }
            }
            if distinct_keys(fields) {
                assert forall|a: int, b: int| 0 <= a < b < now.len() implies (#[trigger] now[a]).0
                    != (#[trigger] now[b]).0 by {
                    if b < before.len() {
                        assert(now[a] == before[a] && now[b] == before[b]);
                    } else {
                        assert(now[a] == before[a]);
                        let j = choose|j: int| 0 <= j < n - 1 && #[trigger] fields[j] == before[a];
                        assert(fields[j].0 != fields[n - 1].0);
                    }
                }
            }
        }
    }
}

/// The fields that a save sends name no field twice where the form's
/// fields name none twice.
pub proof fn lemma_saved_fields_distinct(m: RecordUiModel)
    requires
        distinct_keys(m.fields),
    ensures
        distinct_keys(saved_fields(m)),
{
    let kept = without_key(m.fields, m.key_to_add, m.fields.len());
    let sent = saved_fields(m);
    lemma_without_key(m.fields, m.key_to_add, m.fields.len());
    assert forall|a: int, b: int| 0 <= a < b < sent.len() implies (#[trigger] sent[a]).0 != (
    #[trigger] sent[b]).0 by {
        assert(sent[a] == kept[a]);
        if b < kept.len() {
            assert(sent[b] == kept[b]);
        }
    }
}

impl RecordUi {
    /// A form that displays `fields`, with nothing being added.
    pub fn new(fields: Vec<(String, String)>) -> (r: Self)
        ensures
            r@ == (RecordUiModel {
                editing: false,
                fields: fields_view(fields@),
                key_to_add: Seq::empty(),
                value_to_add: Seq::empty(),
            }),
    {
        Self {
            state: RecordUiState::Display(fields),
            key_to_add: String::new(),
            value_to_add: String::new(),
        }
    }

    /// A form that edits `fields`, with nothing being added.
    pub fn editing(fields: Vec<(String, String)>) -> (r: Self)
        ensures
            r@ == (RecordUiModel {
                editing: true,
                fields: fields_view(fields@),
                key_to_add: Seq::empty(),
                value_to_add: Seq::empty(),
            }),
    {
        Self {
            state: RecordUiState::Edit(fields),
            key_to_add: String::new(),
            value_to_add: String::new(),
        }
    }

    /// The fields that the form's save sends: its fields with the field
    /// being added set to its value.
    pub fn fields_to_save(&self) -> (r: Vec<(String, String)>)
        ensures
            fields_view(r@) == saved_fields(self@),
            distinct_keys(self@.fields) ==> distinct_keys(fields_view(r@)),
    {
        let fields = match &self.state {
            RecordUiState::Display(fields) => fields,
            RecordUiState::Edit(fields) => fields,
        };
        let ghost all = fields_view(fields@);
        let mut out: Vec<(String, String)> = Vec::new();
        let mut i: usize = 0;
        assert(fields_view(out@) =~= without_key(all, self.key_to_add@, 0));
        while i < fields.len()
            invariant
                i <= fields.len(),
                all == fields_view(fields@),
                fields_view(out@) == without_key(all, self.key_to_add@, i as nat),
            decreases fields.len() - i,
        {
            let ghost before = fields_view(out@);
            if fields[i].0 != self.key_to_add {
                let name = fields[i].0.clone();
                let value = fields[i].1.clone();
                out.push((name, value));
                assert(fields_view(out@) =~= before.push(all[i as int]));
            }
            i += 1;
        }
        let ghost kept = fields_view(out@);
        out.push((self.key_to_add.clone(), self.value_to_add.clone()));
        assert(fields_view(out@) =~= kept.push((self.key_to_add@, self.value_to_add@)));
        proof {
            if distinct_keys(self@.fields) {
                lemma_saved_fields_distinct(self@);
            }
        }
        out
    }

    pub fn update(&mut self, message: RecordUiMessage)
        ensures
            final(self)@ == record_ui_step(old(self)@, message),
    {
        let editing = match &self.state {
            RecordUiState::Edit(_) => true,
            RecordUiState::Display(_) => false,
        };
        if editing {
            match message {
                RecordUiMessage::Save(_) => {},
                RecordUiMessage::Change(fields) => {
                    self.state = RecordUiState::Edit(fields);
                },
                RecordUiMessage::Edit(key, value) => {
                    self.key_to_add = key;
                    self.value_to_add = value;
                },
            }
        }
    }
}

} // verus!
