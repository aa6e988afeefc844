//! Content fingerprints: BLAKE3 digests in lowercase hexadecimal over messages
//! framed so that part boundaries are preserved.

use crate::config::decoding::buffer::{lemma_pow256_monotonic, pow256};
use vstd::arithmetic::div_mod::lemma_div_denominator;
use vstd::prelude::*;

use vstd::utf8::encode_utf8;

verus! {

/// The BLAKE3 digest of `data`.
pub uninterp spec fn blake3_hash(data: Seq<u8>) -> Seq<u8>;

/// Computes the 32-byte BLAKE3 digest of `data` with `blake3::hash`, whose result
/// depends on `data` alone and whose `as_bytes` holds exactly 32 bytes.
#[verifier::external_body]
fn blake3_digest(data: &[u8]) -> (digest: Vec<u8>)
    ensures
        digest@ == blake3_hash(data@),
        digest@.len() == 32,
{
    blake3::hash(data).as_bytes().to_vec()
}

/// The lowercase hexadecimal digit of `d` in `0..16`.
pub open spec fn hex_digit(d: int) -> char {
    if d < 10 {
        (48 + d) as char
    } else {
        (87 + d) as char
    }
}

/// Each byte as two lowercase hexadecimal digits, high nibble first.
pub open spec fn lower_hex(bytes: Seq<u8>) -> Seq<char> {
    Seq::new(2 * bytes.len(), |i: int| if i % 2 == 0 {
        hex_digit((bytes[i / 2] / 16) as int)
    } else {
        hex_digit((bytes[i / 2] % 16) as int)
    })
}

/// The fingerprint of `data`: its BLAKE3 digest in lowercase hexadecimal.
pub open spec fn fingerprint(data: Seq<u8>) -> Seq<char> {
    lower_hex(blake3_hash(data))
}

/// The eight little-endian bytes of `n`.
pub open spec fn le_bytes(n: u64) -> Seq<u8> {
    Seq::new(8, |i: int| ((n as nat / pow256(i as nat)) % 256) as u8)
}

/// A message part prefixed with its byte length as eight little-endian bytes.
pub open spec fn frame(bytes: Seq<u8>) -> Seq<u8> {
    le_bytes(bytes.len() as u64) + bytes
}

/// The UTF-8 bytes of a text, framed.
pub open spec fn text_frame(s: Seq<char>) -> Seq<u8> {
    frame(encode_utf8(s))
}

/// The generated schema, one part per enumeration and per table, each listing its
/// variants or its fields with their encodings in decoding order.
pub open spec fn spec_schema_parts() -> Seq<Seq<char>> {
    seq![
        "enum ActionKind=EndAbility,ApplyEffect"@,
        "enum TargetScope=None,Primary,AllCaptured"@,
        "enum DurationKind=Instant,Infinite,DurationTicks"@,
        "enum MagnitudeKind=Flat,LinearLevel"@,
        "enum ModifierOperation=Add,PercentAdd,Multiply,Override"@,
        "enum SelectionKind=SelfTarget,ExplicitEntity,Sphere,Cone"@,
        "enum SortOrder=None,Nearest,Farthest"@,
        "enum AttributeRegion=Hot,Cold"@,
        "table gas_tbability Ability=id:int,name:string,max_level:int,cost_effect_id:int?,additional_cost_ids:list<int>,cooldown_effect_id:int?,asset_tags:list<string>,required_tags:list<string>,blocked_tags:list<string>,cancel_ability_tags:list<string>,block_ability_tags:list<string>,targeting_id:int,allow_multiple_instances:bool,task_ids:list<int>"@,
        "table gas_tbabilityadditionalcost AbilityAdditionalCost=id:int,resource:string,amount:long"@,
        "table gas_tbabilitytask AbilityTask=id:int,at_tick:int,kind:ActionKind,target_scope:TargetScope,effect_id:int?"@,
        "table gas_tbattribute Attribute=name:string,region:AttributeRegion,description:string"@,
        "table gas_tbeffect Effect=id:int,name:string,duration_kind:DurationKind,duration_ticks:int?,period_ticks:int?,execute_on_applied:bool,probability:float,asset_tags:list<string>,granted_tags:list<string>,modifier_ids:list<int>"@,
        "table gas_tbmodifier Modifier=id:int,attribute:string,operation:ModifierOperation,magnitude_kind:MagnitudeKind,base:float,per_level:float"@,
        "table gas_tbtag Tag=name:string"@,
        "table gas_tbtargeting Targeting=id:int,name:string,selection:SelectionKind,radius:float?,half_angle_radians:float?,max_distance:float?,exclude_source:bool,require_attributes:bool,required_tags:list<string>,blocked_tags:list<string>,sort:SortOrder,limit:int"@,
    ]
}

/// The framed parts `0..n` of `parts`, in order.
pub open spec fn frames_upto(parts: Seq<Seq<char>>, n: nat) -> Seq<u8>
    decreases n,
{
    if n == 0 {
        Seq::empty()
    } else {
        frames_upto(parts, (n - 1) as nat) + text_frame(parts[n - 1])
    }
}

/// The message whose fingerprint identifies the compiled schema.
pub open spec fn schema_message() -> Seq<u8> {
    text_frame("gas-config-schema-v1"@) + frames_upto(spec_schema_parts(), spec_schema_parts().len())
}

/// Appends the eight little-endian bytes of `n`.
pub fn push_le_bytes(out: &mut Vec<u8>, n: u64)
    ensures
        final(out)@ == old(out)@ + le_bytes(n),
{
    let ghost start = out@;
    let mut x: u64 = n;
    let mut i: usize = 0;
    assert(pow256(0) == 1);
    assert(n as nat / 1 == n);
    while i < 8
        invariant
            i <= 8,
            x == n as nat / pow256(i as nat),
            out@ == start + le_bytes(n).take(i as int),
        decreases 8 - i,
    {
        out.push((x % 256) as u8);
        proof {
            lemma_pow256_monotonic(i as nat, i as nat);
            lemma_div_denominator(n as int, pow256(i as nat) as int, 256);
            assert(pow256((i + 1) as nat) == pow256(i as nat) * 256);
            assert(le_bytes(n).take(i + 1) =~= le_bytes(n).take(i as int).push(((n as nat / pow256(i as nat)) % 256) as u8));
        }
        x = x / 256;
        i = i + 1;
    }
    assert(le_bytes(n).take(8) =~= le_bytes(n));
}

/// Appends `bytes` framed by its length.
pub fn push_frame(out: &mut Vec<u8>, bytes: &[u8])
    ensures
        final(out)@ == old(out)@ + frame(bytes@),
{
    let ghost start = out@;
    push_le_bytes(out, bytes.len() as u64);
    let ghost mid = out@;
    let mut i: usize = 0;
    while i < bytes.len()
        invariant
            i <= bytes@.len(),
            out@ == mid + bytes@.take(i as int),
        decreases bytes@.len() - i,
    {
        out.push(bytes[i]);
        assert(bytes@.take(i + 1) =~= bytes@.take(i as int).push(bytes@[i as int]));
        i = i + 1;
    }
    assert(bytes@.take(bytes@.len() as int) =~= bytes@);
    assert(out@ =~= start + frame(bytes@));
}

/// Appends the UTF-8 bytes of `s`, framed by their length.
pub fn push_text_frame(out: &mut Vec<u8>, s: &str)
    ensures
        final(out)@ == old(out)@ + text_frame(s@),
{
    let bytes = s.as_bytes_vec();
    push_frame(out, bytes.as_slice());
}

/// The lowercase hexadecimal text of `bytes`.
pub fn hex_text(bytes: &Vec<u8>) -> (s: String)
    ensures
        s@ == lower_hex(bytes@),
{
    let mut s = String::new();
    let mut i: usize = 0;
    while i < bytes.len()
        invariant
            i <= bytes@.len(),
            s@ == lower_hex(bytes@.take(i as int)),
        decreases bytes@.len() - i,
    {
        let b = bytes[i];
        let high = hex_char(b / 16);
        let low = hex_char(b % 16);
        let ghost before = s@;
        crate::config::text::push_char(&mut s, high);
        crate::config::text::push_char(&mut s, low);
        assert(s@ =~= lower_hex(bytes@.take(i + 1))) by {
            let t = bytes@.take(i + 1);
            assert forall|k: int| 0 <= k < 2 * t.len() implies s@[k] == lower_hex(t)[k] by {
                if k < 2 * i {
                    assert(t[k / 2] == bytes@.take(i as int)[k / 2]);
                }
            }
        }
        i = i + 1;
    }
    assert(bytes@.take(bytes@.len() as int) =~= bytes@);
    s
}

fn hex_char(d: u8) -> (c: char)
    requires
        d < 16,
    ensures
        c == hex_digit(d as int),
{
    if d < 10 {
        (48u8 + d) as char
    } else {
        (87u8 + d) as char
    }
}

/// The fingerprint of `data`.
pub fn fingerprint_of(data: &[u8]) -> (s: String)
    ensures
        s@ == fingerprint(data@),
{
    let digest = blake3_digest(data);
    hex_text(&digest)
}

/// Returns the generated schema parts, one per enumeration and per table.
pub fn schema_parts() -> (parts: Vec<&'static str>)
    ensures
        parts@.len() == spec_schema_parts().len(),
        forall|i: int| 0 <= i < parts@.len() ==> parts@[i]@ == spec_schema_parts()[i],
{
    let parts = vec![
        "enum ActionKind=EndAbility,ApplyEffect",
        "enum TargetScope=None,Primary,AllCaptured",
        "enum DurationKind=Instant,Infinite,DurationTicks",
        "enum MagnitudeKind=Flat,LinearLevel",
        "enum ModifierOperation=Add,PercentAdd,Multiply,Override",
        "enum SelectionKind=SelfTarget,ExplicitEntity,Sphere,Cone",
        "enum SortOrder=None,Nearest,Farthest",
        "enum AttributeRegion=Hot,Cold",
        "table gas_tbability Ability=id:int,name:string,max_level:int,cost_effect_id:int?,additional_cost_ids:list<int>,cooldown_effect_id:int?,asset_tags:list<string>,required_tags:list<string>,blocked_tags:list<string>,cancel_ability_tags:list<string>,block_ability_tags:list<string>,targeting_id:int,allow_multiple_instances:bool,task_ids:list<int>",
        "table gas_tbabilityadditionalcost AbilityAdditionalCost=id:int,resource:string,amount:long",
        "table gas_tbabilitytask AbilityTask=id:int,at_tick:int,kind:ActionKind,target_scope:TargetScope,effect_id:int?",
        "table gas_tbattribute Attribute=name:string,region:AttributeRegion,description:string",
        "table gas_tbeffect Effect=id:int,name:string,duration_kind:DurationKind,duration_ticks:int?,period_ticks:int?,execute_on_applied:bool,probability:float,asset_tags:list<string>,granted_tags:list<string>,modifier_ids:list<int>",
        "table gas_tbmodifier Modifier=id:int,attribute:string,operation:ModifierOperation,magnitude_kind:MagnitudeKind,base:float,per_level:float",
        "table gas_tbtag Tag=name:string",
        "table gas_tbtargeting Targeting=id:int,name:string,selection:SelectionKind,radius:float?,half_angle_radians:float?,max_distance:float?,exclude_source:bool,require_attributes:bool,required_tags:list<string>,blocked_tags:list<string>,sort:SortOrder,limit:int",
    ];
    parts
}

/// Returns the fingerprint of the compiled configuration schema.
///
/// The message frames a version label and then each schema part with its byte
/// length, preserving part boundaries. Data packages must carry this exact hash
/// to be decoded with these table types.
pub fn package_schema_hash() -> (s: String)
    ensures
        s@ == fingerprint(schema_message()),
{
    let mut message: Vec<u8> = Vec::new();
    push_text_frame(&mut message, "gas-config-schema-v1");
    let ghost head = message@;
    let parts = schema_parts();
    let mut i: usize = 0;
    assert(message@ =~= head + frames_upto(spec_schema_parts(), 0));
    while i < parts.len()
        invariant
            parts@.len() == spec_schema_parts().len(),
            forall|k: int| 0 <= k < parts@.len() ==> parts@[k]@ == spec_schema_parts()[k],
            i <= parts@.len(),
            message@ == head + frames_upto(spec_schema_parts(), i as nat),
        decreases parts@.len() - i,
    {
        push_text_frame(&mut message, parts[i]);
        assert(message@ =~= head + frames_upto(spec_schema_parts(), (i + 1) as nat));
        i = i + 1;
    }
    assert(message@ =~= schema_message());
    fingerprint_of(message.as_slice())
}

} // verus!
