//! Configuration documents: a TOML tree and the schema that turns it into
//! bindings.
//!
//! A document holds one key, `devices` (or `device`), whose value is an
//! array of device blocks or a single block. A block holds exactly the keys
//! `device` (a string) and `gestures` (an array of records). In a record the
//! key `execute` (a string) gives the action; every other key, with a string,
//! integer or boolean value, is a field of the gesture. A record without
//! `execute` binds its gesture to the no-op action.

use vstd::prelude::*;
use crate::store::{
    Action, ActionView, Binding, BindingView, Gesture, GestureView, Scalar, ScalarView,
    bindings_view, gesture_fields_view,
};

verus! {

/// A TOML value. Floats and datetimes play no part in the schema and are
/// kept as `Other`.
pub enum TomlValue {
    Text(String),
    Integer(i64),
    Boolean(bool),
    Array(Vec<TomlValue>),
    Table(Vec<(String, TomlValue)>),
    Other,
}

#[verifier::external_type_specification]
#[verifier::external_body]
pub struct ExTomlValue(toml::Value);

/// The tree that the toml crate reads from `bytes`, or the text of the error
/// it reports when they hold no TOML document.
pub uninterp spec fn toml_document(bytes: Seq<u8>) -> Result<TomlValue, Seq<char>>;

/// Relies on `toml::from_slice`: it reads the bytes as UTF-8 text and parses
/// it as a TOML document; what it returns, and the text of its error,
/// depend on the bytes alone.
#[verifier::external_body]
fn parse_toml(bytes: &[u8]) -> (r: Result<TomlValue, String>)
    ensures
        match r {
            Ok(v) => toml_document(bytes@) == Ok::<TomlValue, Seq<char>>(v),
            Err(e) => toml_document(bytes@) == Err::<TomlValue, Seq<char>>(e@),
        },
{
    match toml::from_slice::<toml::Value>(bytes) {
        Ok(v) => Ok(tree_of(v)),
        Err(e) => Err(e.to_string()),
    }
}

/// Converts a value of the toml crate node for node; a table's keys come in
/// the order the toml crate's map yields them.
#[verifier::external_body]
fn tree_of(v: toml::Value) -> TomlValue {
    match v {
        toml::Value::String(s) => TomlValue::Text(s),
        toml::Value::Integer(i) => TomlValue::Integer(i),
        toml::Value::Boolean(b) => TomlValue::Boolean(b),
        toml::Value::Array(a) => TomlValue::Array(a.into_iter().map(tree_of).collect()),
        toml::Value::Table(t) => TomlValue::Table(t.into_iter().map(|(k, x)| (k, tree_of(x))).collect()),
        _ => TomlValue::Other,
    }
}

pub open spec fn spec_scalar(v: TomlValue) -> Option<ScalarView> {
    match v {
        TomlValue::Text(s) => Some(ScalarView::Text(s@)),
        TomlValue::Integer(i) => Some(ScalarView::Integer(i)),
        TomlValue::Boolean(b) => Some(ScalarView::Boolean(b)),
        _ => None,
    }
}

/// The gesture and action of a record's fields, read first to last.
pub open spec fn spec_record_fields(fields: Seq<(String, TomlValue)>) -> Option<(GestureView, ActionView)>
    decreases fields.len(),
{
    if fields.len() == 0 {
        Some((Seq::empty(), ActionView::NoOp))
    } else {
        match spec_record_fields(fields.drop_last()) {
            Some(acc) => {
                let f = fields.last();
                if f.0@ == "execute"@ {
                    match f.1 {
                        TomlValue::Text(c) => Some((acc.0, ActionView::Execute(c@))),
                        _ => None,
                    }
                } else {
                    match spec_scalar(f.1) {
                        Some(x) => Some((acc.0.push((f.0@, x)), acc.1)),
                        None => None,
                    }
                }
            },
            None => None,
        }
    }
}

/// A gesture record: a table whose gesture has at least one field.
pub open spec fn spec_record(v: TomlValue) -> Option<(GestureView, ActionView)> {
    match v {
        TomlValue::Table(fields) => match spec_record_fields(fields@) {
            Some(r) => if r.0.len() > 0 { Some(r) } else { None },
            None => None,
        },
        _ => None,
    }
}

/// The bindings of `device` that a list of records gives.
pub open spec fn spec_records(items: Seq<TomlValue>, device: Seq<char>) -> Option<Seq<BindingView>>
    decreases items.len(),
{
    if items.len() == 0 {
        Some(Seq::empty())
    } else {
        match (spec_records(items.drop_last(), device), spec_record(items.last())) {
            (Some(bs), Some(r)) => Some(bs.push(BindingView { device, rule: Some(r) })),
            _ => None,
        }
    }
}

/// Where in a block's fields its `device` string and its `gestures` array
/// stand; `None` where a field is unknown or of the wrong type.
pub open spec fn spec_block_fields(fields: Seq<(String, TomlValue)>) -> Option<(Option<int>, Option<int>)>
    decreases fields.len(),
{
    if fields.len() == 0 {
        Some((None, None))
    } else {
        let i = fields.len() - 1;
        match spec_block_fields(fields.drop_last()) {
            Some(acc) => {
                let f = fields.last();
                if f.0@ == "device"@ && f.1 is Text {
                    Some((Some(i), acc.1))
                } else if f.0@ == "gestures"@ && f.1 is Array {
                    Some((acc.0, Some(i)))
                } else {
                    None
                }
            },
            None => None,
        }
    }
}

/// The bindings of one device block: the device itself, then each record.
pub open spec fn spec_block(v: TomlValue) -> Option<Seq<BindingView>> {
    match v {
        TomlValue::Table(fields) => match spec_block_fields(fields@) {
            Some((Some(di), Some(gi))) => match (fields@[di].1, fields@[gi].1) {
                (TomlValue::Text(d), TomlValue::Array(items)) => match spec_records(items@, d@) {
                    Some(rs) => Some(seq![BindingView { device: d@, rule: None }] + rs),
                    None => None,
                },
                _ => None,
            },
            _ => None,
        },
        _ => None,
    }
}

pub open spec fn spec_blocks(items: Seq<TomlValue>) -> Option<Seq<BindingView>>
    decreases items.len(),
{
    if items.len() == 0 {
        Some(Seq::empty())
    } else {
        match (spec_blocks(items.drop_last()), spec_block(items.last())) {
            (Some(bs), Some(b)) => Some(bs + b),
            _ => None,
        }
    }
}

/// The value of `devices`: an array of blocks, or one block.
pub open spec fn spec_device_list(v: TomlValue) -> Option<Seq<BindingView>> {
    match v {
        TomlValue::Array(items) => spec_blocks(items@),
        TomlValue::Table(_) => spec_block(v),
        _ => None,
    }
}

pub open spec fn is_devices_key(k: Seq<char>) -> bool {
    k == "devices"@ || k == "device"@
}

/// Where the document's `devices` (or `device`) field stands; `None` where
/// another key is present or both are.
pub open spec fn spec_top_fields(fields: Seq<(String, TomlValue)>) -> Option<Option<int>>
    decreases fields.len(),
{
    if fields.len() == 0 {
        Some(None)
    } else {
        match spec_top_fields(fields.drop_last()) {
            Some(acc) => if is_devices_key(fields.last().0@) && acc is None {
                Some(Some(fields.len() - 1))
            } else {
                None
            },
            None => None,
        }
    }
}

/// The bindings a configuration document gives, first to last; `None` where
/// it does not follow the schema.
pub open spec fn spec_read_config(doc: TomlValue) -> Option<Seq<BindingView>> {
    match doc {
        TomlValue::Table(fields) => match spec_top_fields(fields@) {
            Some(Some(k)) => spec_device_list(fields@[k].1),
            _ => None,
        },
        _ => None,
    }
}

/// Why a document that does not follow the schema is refused.
pub open spec fn spec_schema_error(doc: TomlValue) -> Seq<char> {
    match doc {
        TomlValue::Table(fields) => match spec_top_fields(fields@) {
            Some(Some(_)) => "a device block or gesture record does not follow the schema"@,
            _ => "expected exactly one `devices` key and nothing else"@,
        },
        _ => "a configuration document must be a table"@,
    }
}

/// The bindings that a file's bytes give, or why they give none: the toml
/// crate's error where they are no TOML, the schema's where they do not
/// follow it.
pub open spec fn spec_parse_config(bytes: Seq<u8>) -> Result<Seq<BindingView>, Seq<char>> {
    match toml_document(bytes) {
        Ok(doc) => match spec_read_config(doc) {
            Some(bs) => Ok(bs),
            None => Err(spec_schema_error(doc)),
        },
        Err(e) => Err(e),
    }
}

/// A record without an `execute` field binds its gesture to the no-op
/// action.
pub proof fn lemma_record_without_action_is_noop(fields: Seq<(String, TomlValue)>)
    requires
        forall|i: int| 0 <= i < fields.len() ==> #[trigger] fields[i].0@ != "execute"@,
    ensures
        spec_record_fields(fields) matches Some(r) ==> r.1 == ActionView::NoOp,
    decreases fields.len(),
{
    if fields.len() > 0 {
        let init = fields.drop_last();
        assert forall|i: int| 0 <= i < init.len() implies #[trigger] init[i].0@ != "execute"@ by {
            assert(init[i] == fields[i]);
        }
        lemma_record_without_action_is_noop(init);
        assert(fields[fields.len() - 1].0@ != "execute"@);
    }
}

/// A gesture record without an `execute` field binds its gesture to the
/// no-op action.
pub proof fn lemma_record_without_action_binds_noop(fields: Vec<(String, TomlValue)>)
    requires
        forall|i: int| 0 <= i < fields@.len() ==> #[trigger] fields@[i].0@ != "execute"@,
        spec_record(TomlValue::Table(fields)) is Some,
    ensures
        spec_record(TomlValue::Table(fields)).unwrap().1 == ActionView::NoOp,
{
    lemma_record_without_action_is_noop(fields@);
}

/// The records of a device give one binding each, in their order: the
/// record's gesture and action on that device.
pub proof fn lemma_records_bind_in_order(items: Seq<TomlValue>, device: Seq<char>, j: int)
    requires
        spec_records(items, device) is Some,
        0 <= j < items.len(),
    ensures
        spec_records(items, device).unwrap().len() == items.len(),
        spec_records(items, device).unwrap()[j] == (BindingView { device, rule: spec_record(items[j]) }),
    decreases items.len(),
{
    let init = items.drop_last();
    if j < items.len() - 1 {
        lemma_records_bind_in_order(init, device, j);
        assert(init[j] == items[j]);
    } else if init.len() > 0 {
        lemma_records_bind_in_order(init, device, 0);
    }
}

fn key_is(k: &String, name: &str) -> (r: bool)
    ensures
        r == (k@ == name@),
{
    let n = String::from_str(name);
    *k == n
}

fn scalar_of(v: &TomlValue) -> (r: Option<Scalar>)
    ensures
        match r {
            Some(x) => spec_scalar(*v) == Some(x@),
            None => spec_scalar(*v) is None,
        },
{
    match v {
        TomlValue::Text(s) => Some(Scalar::Text(s.clone())),
        TomlValue::Integer(i) => Some(Scalar::Integer(*i)),
        TomlValue::Boolean(b) => Some(Scalar::Boolean(*b)),
        _ => None,
    }
}


fn read_record(v: &TomlValue) -> (r: Option<(Gesture, Action)>)
    ensures
        match r {
            Some(x) => spec_record(*v) == Some((x.0@, x.1@)),
            None => spec_record(*v) is None,
        },
{
    let fields = match v {
        TomlValue::Table(fields) => fields,
        _ => return None,
    };
    let mut gesture: Vec<(String, Scalar)> = Vec::new();
    let mut action = Action::NoOp;
    let mut ok = true;
    let mut i: usize = 0;
    while i < fields.len()
        invariant
            0 <= i <= fields.len(),
            ok ==> spec_record_fields(fields@.take(i as int)) == Some((gesture_fields_view(gesture@), action@)),
            !ok ==> spec_record_fields(fields@.take(i as int)) is None,
        decreases fields.len() - i,
    {
        assert(fields@.take(i + 1).drop_last() =~= fields@.take(i as int));
        assert(fields@.take(i + 1).last() == fields@[i as int]);
        if ok {
            let f = &fields[i];
            if key_is(&f.0, "execute") {
                match &f.1 {
                    TomlValue::Text(c) => {
                        action = Action::Execute(c.clone());
                    },
                    _ => {
                        ok = false;
                    },
                }
            } else {
                match scalar_of(&f.1) {
                    Some(x) => {
                        let ghost before = gesture@;
                        gesture.push((f.0.clone(), x));
                        assert(gesture_fields_view(gesture@) =~= gesture_fields_view(before).push((f.0@, x@)));
                    },
                    None => {
                        ok = false;
                    },
                }
            }
        }
        i += 1;
    }
    assert(fields@.take(fields.len() as int) =~= fields@);
    if ok && gesture.len() > 0 {
        Some((Gesture { fields: gesture }, action))
    } else {
        None
    }
}

fn read_records(items: &Vec<TomlValue>, device: &String) -> (r: Option<Vec<Binding>>)
    ensures
        match r {
            Some(bs) => spec_records(items@, device@) == Some(bindings_view(bs@)),
            None => spec_records(items@, device@) is None,
        },
{
    let mut out: Vec<Binding> = Vec::new();
    let mut ok = true;
    let mut i: usize = 0;
    while i < items.len()
        invariant
            0 <= i <= items.len(),
            ok ==> spec_records(items@.take(i as int), device@) == Some(bindings_view(out@)),
            !ok ==> spec_records(items@.take(i as int), device@) is None,
        decreases items.len() - i,
    {
        assert(items@.take(i + 1).drop_last() =~= items@.take(i as int));
        assert(items@.take(i + 1).last() == items@[i as int]);
        if ok {
            match read_record(&items[i]) {
                Some(rule) => {
                    let ghost before = out@;
                    out.push(Binding { device: device.clone(), rule: Some(rule) });
                    assert(bindings_view(out@) =~= bindings_view(before).push(out@.last()@));
                },
                None => {
                    ok = false;
                },
            }
        }
        i += 1;
    }
    assert(items@.take(items.len() as int) =~= items@);
    if ok {
        Some(out)
    } else {
        None
    }
}

fn read_block(v: &TomlValue) -> (r: Option<Vec<Binding>>)
    ensures
        match r {
            Some(bs) => spec_block(*v) == Some(bindings_view(bs@)),
            None => spec_block(*v) is None,
        },
{
    let fields = match v {
        TomlValue::Table(fields) => fields,
        _ => return None,
    };
    let mut device_at: Option<usize> = None;
    let mut gestures_at: Option<usize> = None;
    let mut ok = true;
    let mut i: usize = 0;
    while i < fields.len()
        invariant
            0 <= i <= fields.len(),
            ok ==> spec_block_fields(fields@.take(i as int)) == Some((
                match device_at { Some(k) => Some(k as int), None => None },
                match gestures_at { Some(k) => Some(k as int), None => None },
            )),
            !ok ==> spec_block_fields(fields@.take(i as int)) is None,
            device_at matches Some(k) ==> k < i,
            gestures_at matches Some(k) ==> k < i,
        decreases fields.len() - i,
    {
        assert(fields@.take(i + 1).drop_last() =~= fields@.take(i as int));
        assert(fields@.take(i + 1).last() == fields@[i as int]);
        if ok {
            let f = &fields[i];
            if key_is(&f.0, "device") && matches!(f.1, TomlValue::Text(_)) {
                device_at = Some(i);
            } else if key_is(&f.0, "gestures") && matches!(f.1, TomlValue::Array(_)) {
                gestures_at = Some(i);
            } else {
                ok = false;
            }
        }
        i += 1;
    }
    assert(fields@.take(fields.len() as int) =~= fields@);
    if !ok {
        return None;
    }
    match (device_at, gestures_at) {
        (Some(di), Some(gi)) => match (&fields[di].1, &fields[gi].1) {
            (TomlValue::Text(d), TomlValue::Array(items)) => match read_records(items, d) {
                Some(rs) => {
                    let mut out: Vec<Binding> = Vec::new();
                    out.push(Binding { device: d.clone(), rule: None });
                    let ghost first = out@;
                    let mut rs = rs;
                    let ghost rest = rs@;
                    out.append(&mut rs);
                    assert(bindings_view(out@) =~= seq![BindingView { device: d@, rule: None }]
                        + bindings_view(rest));
                    Some(out)
                },
                None => None,
            },
            _ => None,
        },
        _ => None,
    }
}


fn read_blocks(items: &Vec<TomlValue>) -> (r: Option<Vec<Binding>>)
    ensures
        match r {
            Some(bs) => spec_blocks(items@) == Some(bindings_view(bs@)),
            None => spec_blocks(items@) is None,
        },
{
    let mut out: Vec<Binding> = Vec::new();
    let mut ok = true;
    let mut i: usize = 0;
    while i < items.len()
        invariant
            0 <= i <= items.len(),
            ok ==> spec_blocks(items@.take(i as int)) == Some(bindings_view(out@)),
            !ok ==> spec_blocks(items@.take(i as int)) is None,
        decreases items.len() - i,
    {
        assert(items@.take(i + 1).drop_last() =~= items@.take(i as int));
        assert(items@.take(i + 1).last() == items@[i as int]);
        if ok {
            match read_block(&items[i]) {
                Some(bs) => {
                    let ghost before = out@;
                    let ghost added = bs@;
                    let mut bs = bs;
                    out.append(&mut bs);
                    assert(bindings_view(out@) =~= bindings_view(before) + bindings_view(added));
                },
                None => {
                    ok = false;
                },
            }
        }
        i += 1;
    }
    assert(items@.take(items.len() as int) =~= items@);
    if ok {
        Some(out)
    } else {
        None
    }
}

/// Reads the bindings of a configuration document, first to last.
pub fn read_config(doc: &TomlValue) -> (r: Result<Vec<Binding>, String>)
    ensures
        match r {
            Ok(bs) => spec_read_config(*doc) == Some(bindings_view(bs@)),
            Err(e) => spec_read_config(*doc) is None && e@ == spec_schema_error(*doc),
        },
{
    let fields = match doc {
        TomlValue::Table(fields) => fields,
        _ => return Err(String::from_str("a configuration document must be a table")),
    };
    let mut devices_at: Option<usize> = None;
    let mut ok = true;
    let mut i: usize = 0;
    while i < fields.len()
        invariant
            0 <= i <= fields.len(),
            ok ==> spec_top_fields(fields@.take(i as int)) == Some(
                match devices_at { Some(k) => Some(k as int), None => None },
            ),
            !ok ==> spec_top_fields(fields@.take(i as int)) is None,
            devices_at matches Some(k) ==> k < i,
        decreases fields.len() - i,
    {
        assert(fields@.take(i + 1).drop_last() =~= fields@.take(i as int));
        assert(fields@.take(i + 1).last() == fields@[i as int]);
        if ok {
            let k = &fields[i].0;
            if (key_is(k, "devices") || key_is(k, "device")) && devices_at.is_none() {
                devices_at = Some(i);
            } else {
                ok = false;
            }
        }
        i += 1;
    }
    assert(fields@.take(fields.len() as int) =~= fields@);
    let at = match devices_at {
        Some(at) => at,
        None => return Err(String::from_str("expected exactly one `devices` key and nothing else")),
    };
    if !ok {
        return Err(String::from_str("expected exactly one `devices` key and nothing else"));
    }
    let found = match &fields[at].1 {
        TomlValue::Array(items) => read_blocks(items),
        TomlValue::Table(_) => read_block(&fields[at].1),
        _ => None,
    };
    match found {
        Some(bs) => Ok(bs),
        None => Err(String::from_str("a device block or gesture record does not follow the schema")),
    }
}

/// Parses a configuration file's bytes into its bindings, first to last.
pub fn parse_config(bytes: &[u8]) -> (r: Result<Vec<Binding>, String>)
    ensures
        match r {
            Ok(bs) => spec_parse_config(bytes@) == Ok::<Seq<BindingView>, Seq<char>>(bindings_view(bs@)),
            Err(e) => spec_parse_config(bytes@) == Err::<Seq<BindingView>, Seq<char>>(e@),
        },
{
    match parse_toml(bytes) {
        Ok(doc) => read_config(&doc),
        Err(e) => Err(e),
    }
}

} // verus!
