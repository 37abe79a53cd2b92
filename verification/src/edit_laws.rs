//! Laws of editing and deleting one entry of a key: which input names the
//! member that leaves and which the member that comes in.
use vstd::prelude::*;
use crate::bytes_format::text_bytes;
use crate::field_ops::{KeyKind, FieldEdit, SetSpec, DelSpec, set_op_of, del_op_of};
use crate::model::BytesFormat;

verus! {

/// Editing a set or sorted-set member removes the member given as the
/// source value and adds the member given as the new value, whatever the
/// other inputs are; the hash field name plays no part.
pub proof fn law_member_edit_replaces_source(e: FieldEdit, fmt: BytesFormat, httl_supported: bool, key: Seq<u8>)
    requires
        text_bytes(e.src_field_value@, fmt) is Some,
        text_bytes(e.field_value@, fmt) is Some,
    ensures
        set_op_of(KeyKind::SetOf, e, fmt, httl_supported, key) matches Ok(SetSpec::SetReplace(old, new))
            && old == text_bytes(e.src_field_value@, fmt)->0 && new == text_bytes(e.field_value@, fmt)->0,
        set_op_of(KeyKind::ZSet, e, fmt, httl_supported, key) matches Ok(SetSpec::ZSetReplace(old, new))
            && old == text_bytes(e.src_field_value@, fmt)->0 && new == text_bytes(e.field_value@, fmt)->0,
{
}

/// Replacing a member by itself changes nothing: the member removed and
/// the member added are the same bytes.
pub proof fn law_member_edit_same_value(e: FieldEdit, fmt: BytesFormat, httl_supported: bool, key: Seq<u8>)
    requires
        e.src_field_value@ == e.field_value@,
        text_bytes(e.field_value@, fmt) is Some,
    ensures
        set_op_of(KeyKind::SetOf, e, fmt, httl_supported, key) matches Ok(SetSpec::SetReplace(old, new)) && old == new,
        set_op_of(KeyKind::ZSet, e, fmt, httl_supported, key) matches Ok(SetSpec::ZSetReplace(old, new)) && old == new,
{
}

/// Deleting a set or sorted-set entry removes the member read from the
/// row's value, the same member for both types, and the field name plays
/// no part: two calls that differ only in it delete the same member.
pub proof fn law_member_delete_uses_value(
    field_key: Seq<char>,
    other_field_key: Seq<char>,
    field_value: Seq<char>,
    fmt: BytesFormat,
    key: Seq<u8>,
)
    requires
        text_bytes(field_value, fmt) is Some,
    ensures
        del_op_of(KeyKind::ZSet, field_key, field_value, fmt, key) matches Ok(DelSpec::ZSetRemove(m))
            && m == text_bytes(field_value, fmt)->0,
        del_op_of(KeyKind::SetOf, field_key, field_value, fmt, key) matches Ok(DelSpec::SetRemove(m))
            && m == text_bytes(field_value, fmt)->0,
        del_op_of(KeyKind::ZSet, field_key, field_value, fmt, key) == del_op_of(
            KeyKind::ZSet,
            other_field_key,
            field_value,
            fmt,
            key,
        ),
        del_op_of(KeyKind::SetOf, field_key, field_value, fmt, key) == del_op_of(
            KeyKind::SetOf,
            other_field_key,
            field_value,
            fmt,
            key,
        ),
{
}

/// Deleting a hash entry removes the field read from the row's field name,
/// whatever the row's value.
pub proof fn law_hash_delete_uses_field(
    field_key: Seq<char>,
    field_value: Seq<char>,
    other_field_value: Seq<char>,
    fmt: BytesFormat,
    key: Seq<u8>,
)
    requires
        text_bytes(field_key, fmt) is Some,
    ensures
        del_op_of(KeyKind::Hash, field_key, field_value, fmt, key) matches Ok(DelSpec::HashDel(f))
            && f == text_bytes(field_key, fmt)->0,
        del_op_of(KeyKind::Hash, field_key, field_value, fmt, key) == del_op_of(
            KeyKind::Hash,
            field_key,
            other_field_value,
            fmt,
            key,
        ),
{
}

} // verus!
