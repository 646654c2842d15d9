//! Writing back what was read: whatever the CRST reader accepts, it accepts
//! only in the form the writer would give it. So a byte sequence read as a
//! program is exactly the writing of that program.
use vstd::prelude::*;
use vstd::bytes::{lemma_auto_spec_u32_to_from_le_bytes, lemma_auto_spec_u64_to_from_le_bytes};
use vstd::utf8::{encode_utf8, decode_utf8, is_scalar};
use crate::ast::{UnaryOp, AccessOp};
use crate::format_spec::{
    le32, le64, ser_flag, ser_string, rd_take, rd_u8, rd_u32, rd_u64, rd_flag, rd_string, rd_char,
    ser_expr, ser_expr_list, rd_expr, rd_expr_list, unary_tag, binary_tag, access_tag,
    binary_of_tag, ser_stmt, ser_stmt_list, ser_stmts, rd_stmt, rd_stmts, rd_stmt_list,
    ser_parameter, ser_parameter_list, rd_parameter, rd_parameter_list, ser_field, ser_field_list,
    rd_field, rd_field_list, ser_function, ser_function_list, rd_function, rd_function_list,
    ser_object, rd_object, ser_item, ser_item_list, ser_items, rd_item, rd_items, rd_item_list,
    ser_program, rd_program, crst_magic,
};

verus! {

broadcast use vstd::utf8::decode_utf8_encode_utf8;

/// The bytes of `b` from `p` to `q` are `s`.
pub open spec fn wrote(b: Seq<u8>, p: int, q: int, s: Seq<u8>) -> bool {
    &&& 0 <= p <= q <= b.len()
    &&& b.subrange(p, q) == s
}

proof fn lemma_join(b: Seq<u8>, p: int, q: int, r: int, x: Seq<u8>, y: Seq<u8>)
    requires
        wrote(b, p, q, x),
        wrote(b, q, r, y),
    ensures
        wrote(b, p, r, x + y),
{
    assert(b.subrange(p, r) =~= b.subrange(p, q) + b.subrange(q, r));
}

proof fn lemma_c_u8(b: Seq<u8>, p: int)
    requires
        0 <= p,
        rd_u8(b, p) is Ok,
    ensures
        wrote(b, p, rd_u8(b, p)->Ok_0.1, seq![rd_u8(b, p)->Ok_0.0]),
        rd_u8(b, p)->Ok_0.1 == p + 1,
{
    assert(b.subrange(p, p + 1) =~= seq![b.subrange(p, p + 1)[0]]);
}

proof fn lemma_c_u32(b: Seq<u8>, p: int)
    requires
        0 <= p,
        rd_u32(b, p) is Ok,
    ensures
        wrote(b, p, rd_u32(b, p)->Ok_0.1, le32(rd_u32(b, p)->Ok_0.0 as int)),
        rd_u32(b, p)->Ok_0.1 == p + 4,
{
    lemma_auto_spec_u32_to_from_le_bytes();
}

proof fn lemma_c_u64(b: Seq<u8>, p: int)
    requires
        0 <= p,
        rd_u64(b, p) is Ok,
    ensures
        wrote(b, p, rd_u64(b, p)->Ok_0.1, le64(rd_u64(b, p)->Ok_0.0)),
        rd_u64(b, p)->Ok_0.1 == p + 8,
{
    lemma_auto_spec_u64_to_from_le_bytes();
}

proof fn lemma_c_flag(b: Seq<u8>, p: int)
    requires
        0 <= p,
        rd_flag(b, p) is Ok,
    ensures
        wrote(b, p, rd_flag(b, p)->Ok_0.1, ser_flag(rd_flag(b, p)->Ok_0.0)),
{
    lemma_c_u8(b, p);
}

proof fn lemma_c_string(b: Seq<u8>, p: int)
    requires
        0 <= p,
        rd_string(b, p) is Ok,
    ensures
        wrote(b, p, rd_string(b, p)->Ok_0.1, ser_string(rd_string(b, p)->Ok_0.0)),
{
    lemma_c_u32(b, p);
    let (n, q) = rd_u32(b, p)->Ok_0;
    let (bytes, r) = rd_take(b, q, n as int)->Ok_0;
    assert(encode_utf8(decode_utf8(bytes)) == bytes);
    lemma_join(b, p, q, r, le32(n as int), bytes);
}

proof fn lemma_c_char(b: Seq<u8>, p: int)
    requires
        0 <= p,
        rd_char(b, p) is Ok,
    ensures
        wrote(b, p, rd_char(b, p)->Ok_0.1, le32(rd_char(b, p)->Ok_0.0 as int)),
{
    lemma_c_u32(b, p);
    let (v, q) = rd_u32(b, p)->Ok_0;
    assert(is_scalar(v));
    assert((v as char) as int == v as int);
}

/// An expression read is an expression written, byte for byte.
#[verifier::rlimit(60)]
pub proof fn lemma_expr_canonical(b: Seq<u8>, p: int)
    requires
        0 <= p,
        rd_expr(b, p) is Ok,
    ensures
        wrote(b, p, rd_expr(b, p)->Ok_0.1, ser_expr(rd_expr(b, p)->Ok_0.0)),
    decreases b.len() - p, 1nat,
{
    lemma_c_u8(b, p);
    let (tag, p1) = rd_u8(b, p)->Ok_0;
    let (e, q) = rd_expr(b, p)->Ok_0;
    if tag == 0 || tag == 1 {
        lemma_c_u64(b, p1);
        let v = rd_u64(b, p1)->Ok_0.0;
        assert(((v as i64) as u64) == v) by (bit_vector);
        lemma_join(b, p, p1, q, seq![tag], le64(v));
    } else if tag == 2 || tag == 5 {
        lemma_c_string(b, p1);
        lemma_join(b, p, p1, q, seq![tag], ser_string(rd_string(b, p1)->Ok_0.0));
    } else if tag == 3 {
        lemma_c_char(b, p1);
        lemma_join(b, p, p1, q, seq![tag], le32(rd_char(b, p1)->Ok_0.0 as int));
    } else if tag == 4 {
        lemma_c_flag(b, p1);
        lemma_join(b, p, p1, q, seq![tag], ser_flag(rd_flag(b, p1)->Ok_0.0));
    } else if tag == 10 {
        lemma_expr_canonical(b, p1);
        lemma_join(b, p, p1, q, seq![tag], ser_expr(rd_expr(b, p1)->Ok_0.0));
    } else {
        lemma_compound_expr_canonical(b, p);
    }
}

/// The expressions that hold others, with an operator byte or a count.
#[verifier::rlimit(60)]
proof fn lemma_compound_expr_canonical(b: Seq<u8>, p: int)
    requires
        0 <= p,
        rd_expr(b, p) is Ok,
        rd_u8(b, p) is Ok,
        6 <= rd_u8(b, p)->Ok_0.0 <= 9,
    ensures
        wrote(b, p, rd_expr(b, p)->Ok_0.1, ser_expr(rd_expr(b, p)->Ok_0.0)),
    decreases b.len() - p, 0nat,
{
    lemma_c_u8(b, p);
    let (tag, p1) = rd_u8(b, p)->Ok_0;
    let (e, q) = rd_expr(b, p)->Ok_0;
    if tag == 8 {
        lemma_expr_canonical(b, p1);
        let (c, q1) = rd_expr(b, p1)->Ok_0;
        lemma_c_u32(b, q1);
        let (n, r) = rd_u32(b, q1)->Ok_0;
        lemma_expr_list_canonical(b, r, n as nat);
        let args = rd_expr_list(b, r, n as nat)->Ok_0.0;
        lemma_join(b, p, p1, q1, seq![8u8], ser_expr(c));
        lemma_join(b, p, q1, r, seq![8u8] + ser_expr(c), le32(n as int));
        lemma_join(b, p, r, q, seq![8u8] + ser_expr(c) + le32(n as int), ser_expr_list(args));
    } else {
        lemma_c_u8(b, p1);
        let (o, p2) = rd_u8(b, p1)->Ok_0;
        lemma_join(b, p, p1, p2, seq![tag], seq![o]);
        assert(seq![tag] + seq![o] =~= seq![tag, o]);
        lemma_expr_canonical(b, p2);
        let (v, q2) = rd_expr(b, p2)->Ok_0;
        lemma_join(b, p, p2, q2, seq![tag, o], ser_expr(v));
        if tag == 6 {
            assert(unary_tag(if o == 0 { UnaryOp::Not } else { UnaryOp::Negate }) == o);
        } else if tag == 7 {
            let op = binary_of_tag(o)->Some_0;
            assert(binary_tag(op) == o);
            lemma_expr_canonical(b, q2);
            lemma_join(b, p, q2, q, seq![tag, o] + ser_expr(v), ser_expr(rd_expr(b, q2)->Ok_0.0));
        } else {
            assert(access_tag(if o == 0 { AccessOp::Namespace } else { AccessOp::Member }) == o);
            lemma_c_string(b, q2);
            lemma_join(b, p, q2, q, seq![tag, o] + ser_expr(v), ser_string(rd_string(b, q2)->Ok_0.0));
        }
    }
}

/// `n` expressions read are `n` expressions written.
pub proof fn lemma_expr_list_canonical(b: Seq<u8>, p: int, n: nat)
    requires
        0 <= p <= b.len(),
        rd_expr_list(b, p, n) is Ok,
    ensures
        wrote(b, p, rd_expr_list(b, p, n)->Ok_0.1, ser_expr_list(rd_expr_list(b, p, n)->Ok_0.0)),
        rd_expr_list(b, p, n)->Ok_0.0.len() == n,
    decreases b.len() - p, n + 2,
{
    let (s, r) = rd_expr_list(b, p, n)->Ok_0;
    if n == 0 {
        assert(b.subrange(p, p) =~= Seq::<u8>::empty());
        assert(ser_expr_list(s) =~= Seq::<u8>::empty());
    } else {
        lemma_expr_canonical(b, p);
        let (x, q) = rd_expr(b, p)->Ok_0;
        lemma_expr_list_canonical(b, q, (n - 1) as nat);
        let xs = rd_expr_list(b, q, (n - 1) as nat)->Ok_0.0;
        assert(s == seq![x] + xs);
        assert(s[0] == x);
        assert(s.drop_first() =~= xs);
        lemma_join(b, p, q, r, ser_expr(x), ser_expr_list(xs));
    }
}

/// A statement read is a statement written, byte for byte.
#[verifier::rlimit(60)]
pub proof fn lemma_stmt_canonical(b: Seq<u8>, p: int)
    requires
        0 <= p,
        rd_stmt(b, p) is Ok,
    ensures
        wrote(b, p, rd_stmt(b, p)->Ok_0.1, ser_stmt(rd_stmt(b, p)->Ok_0.0)),
    decreases b.len() - p, 1nat,
{
    lemma_c_u8(b, p);
    let (tag, p1) = rd_u8(b, p)->Ok_0;
    let (st, q) = rd_stmt(b, p)->Ok_0;
    if tag == 0 {
        lemma_c_flag(b, p1);
        let (m, q1) = rd_flag(b, p1)->Ok_0;
        lemma_c_string(b, q1);
        let (name, q2) = rd_string(b, q1)->Ok_0;
        lemma_expr_canonical(b, q2);
        lemma_join(b, p, p1, q1, seq![0u8], ser_flag(m));
        lemma_join(b, p, q1, q2, seq![0u8] + ser_flag(m), ser_string(name));
        lemma_join(b, p, q2, q, seq![0u8] + ser_flag(m) + ser_string(name), ser_expr(rd_expr(b, q2)->Ok_0.0));
    } else if tag == 1 {
        lemma_expr_canonical(b, p1);
        let (t, q1) = rd_expr(b, p1)->Ok_0;
        lemma_expr_canonical(b, q1);
        lemma_join(b, p, p1, q1, seq![1u8], ser_expr(t));
        lemma_join(b, p, q1, q, seq![1u8] + ser_expr(t), ser_expr(rd_expr(b, q1)->Ok_0.0));
    } else if tag == 2 {
        lemma_expr_canonical(b, p1);
        lemma_join(b, p, p1, q, seq![2u8], ser_expr(rd_expr(b, p1)->Ok_0.0));
    } else if tag == 3 {
        lemma_if_canonical(b, p);
    } else if tag == 4 {
        lemma_expr_canonical(b, p1);
        let (c, q1) = rd_expr(b, p1)->Ok_0;
        lemma_stmts_canonical(b, q1);
        lemma_join(b, p, p1, q1, seq![4u8], ser_expr(c));
        lemma_join(b, p, q1, q, seq![4u8] + ser_expr(c), ser_stmts(rd_stmts(b, q1)->Ok_0.0));
    } else if tag == 5 || tag == 6 {
    } else if tag == 7 {
        lemma_c_flag(b, p1);
        let (has, q1) = rd_flag(b, p1)->Ok_0;
        lemma_join(b, p, p1, q1, seq![7u8], ser_flag(has));
        if has {
            lemma_expr_canonical(b, q1);
            let v = rd_expr(b, q1)->Ok_0.0;
            lemma_join(b, p, q1, q, seq![7u8] + ser_flag(has), ser_expr(v));
            assert(seq![7u8] + ser_flag(has) + ser_expr(v) =~= seq![7u8] + (seq![1u8] + ser_expr(v)));
        } else {
            assert(seq![7u8] + ser_flag(has) =~= seq![7u8] + seq![0u8]);
        }
    } else {
        lemma_stmts_canonical(b, p1);
        lemma_join(b, p, p1, q, seq![8u8], ser_stmts(rd_stmts(b, p1)->Ok_0.0));
    }
}

#[verifier::rlimit(60)]
proof fn lemma_if_canonical(b: Seq<u8>, p: int)
    requires
        0 <= p,
        rd_stmt(b, p) is Ok,
        rd_u8(b, p) is Ok,
        rd_u8(b, p)->Ok_0.0 == 3,
    ensures
        wrote(b, p, rd_stmt(b, p)->Ok_0.1, ser_stmt(rd_stmt(b, p)->Ok_0.0)),
    decreases b.len() - p, 0nat,
{
    lemma_c_u8(b, p);
    let p1 = p + 1;
    let q = rd_stmt(b, p)->Ok_0.1;
    lemma_expr_canonical(b, p1);
    let (c, q1) = rd_expr(b, p1)->Ok_0;
    lemma_stmts_canonical(b, q1);
    let (body, q2) = rd_stmts(b, q1)->Ok_0;
    lemma_c_flag(b, q2);
    let (has, q3) = rd_flag(b, q2)->Ok_0;
    lemma_join(b, p, p1, q1, seq![3u8], ser_expr(c));
    lemma_join(b, p, q1, q2, seq![3u8] + ser_expr(c), ser_stmts(body));
    lemma_join(b, p, q2, q3, seq![3u8] + ser_expr(c) + ser_stmts(body), ser_flag(has));
    let head = seq![3u8] + ser_expr(c) + ser_stmts(body);
    if has {
        lemma_stmts_canonical(b, q3);
        let eb = rd_stmts(b, q3)->Ok_0.0;
        lemma_join(b, p, q3, q, head + ser_flag(has), ser_stmts(eb));
        assert(head + ser_flag(has) + ser_stmts(eb) =~= head + (seq![1u8] + ser_stmts(eb)));
    } else {
        assert(ser_flag(has) =~= seq![0u8]);
    }
}

/// A counted list of statements read is one written.
pub proof fn lemma_stmts_canonical(b: Seq<u8>, p: int)
    requires
        0 <= p,
        rd_stmts(b, p) is Ok,
    ensures
        wrote(b, p, rd_stmts(b, p)->Ok_0.1, ser_stmts(rd_stmts(b, p)->Ok_0.0)),
    decreases b.len() - p, 3nat,
{
    lemma_c_u32(b, p);
    let (n, q) = rd_u32(b, p)->Ok_0;
    lemma_stmt_list_canonical(b, q, n as nat);
    let (s, r) = rd_stmt_list(b, q, n as nat)->Ok_0;
    lemma_join(b, p, q, r, le32(n as int), ser_stmt_list(s));
}

pub proof fn lemma_stmt_list_canonical(b: Seq<u8>, p: int, n: nat)
    requires
        0 <= p <= b.len(),
        rd_stmt_list(b, p, n) is Ok,
    ensures
        wrote(b, p, rd_stmt_list(b, p, n)->Ok_0.1, ser_stmt_list(rd_stmt_list(b, p, n)->Ok_0.0)),
        rd_stmt_list(b, p, n)->Ok_0.0.len() == n,
    decreases b.len() - p, n + 2,
{
    let (s, r) = rd_stmt_list(b, p, n)->Ok_0;
    if n == 0 {
        assert(b.subrange(p, p) =~= Seq::<u8>::empty());
        assert(ser_stmt_list(s) =~= Seq::<u8>::empty());
    } else {
        lemma_stmt_canonical(b, p);
        let (x, q) = rd_stmt(b, p)->Ok_0;
        lemma_stmt_list_canonical(b, q, (n - 1) as nat);
        let xs = rd_stmt_list(b, q, (n - 1) as nat)->Ok_0.0;
        assert(s[0] == x);
        assert(s.drop_first() =~= xs);
        lemma_join(b, p, q, r, ser_stmt(x), ser_stmt_list(xs));
    }
}

proof fn lemma_parameter_canonical(b: Seq<u8>, p: int)
    requires
        0 <= p,
        rd_parameter(b, p) is Ok,
    ensures
        wrote(b, p, rd_parameter(b, p)->Ok_0.1, ser_parameter(rd_parameter(b, p)->Ok_0.0)),
{
    lemma_c_string(b, p);
    let (name, q) = rd_string(b, p)->Ok_0;
    lemma_c_flag(b, q);
    let (m, r) = rd_flag(b, q)->Ok_0;
    lemma_c_flag(b, r);
    let (rf, t) = rd_flag(b, r)->Ok_0;
    lemma_join(b, p, q, r, ser_string(name), ser_flag(m));
    lemma_join(b, p, r, t, ser_string(name) + ser_flag(m), ser_flag(rf));
}

proof fn lemma_parameter_list_canonical(b: Seq<u8>, p: int, n: nat)
    requires
        0 <= p <= b.len(),
        rd_parameter_list(b, p, n) is Ok,
    ensures
        wrote(b, p, rd_parameter_list(b, p, n)->Ok_0.1, ser_parameter_list(rd_parameter_list(b, p, n)->Ok_0.0)),
        rd_parameter_list(b, p, n)->Ok_0.0.len() == n,
    decreases n,
{
    let (s, r) = rd_parameter_list(b, p, n)->Ok_0;
    if n == 0 {
        assert(b.subrange(p, p) =~= Seq::<u8>::empty());
        assert(ser_parameter_list(s) =~= Seq::<u8>::empty());
    } else {
        lemma_parameter_canonical(b, p);
        let (x, q) = rd_parameter(b, p)->Ok_0;
        lemma_parameter_list_canonical(b, q, (n - 1) as nat);
        let xs = rd_parameter_list(b, q, (n - 1) as nat)->Ok_0.0;
        assert(s[0] == x);
        assert(s.drop_first() =~= xs);
        lemma_join(b, p, q, r, ser_parameter(x), ser_parameter_list(xs));
    }
}

proof fn lemma_field_canonical(b: Seq<u8>, p: int)
    requires
        0 <= p,
        rd_field(b, p) is Ok,
    ensures
        wrote(b, p, rd_field(b, p)->Ok_0.1, ser_field(rd_field(b, p)->Ok_0.0)),
{
    lemma_c_string(b, p);
    let (name, q) = rd_string(b, p)->Ok_0;
    lemma_c_flag(b, q);
    let (m, r) = rd_flag(b, q)->Ok_0;
    lemma_c_flag(b, r);
    let (pv, t) = rd_flag(b, r)->Ok_0;
    lemma_join(b, p, q, r, ser_string(name), ser_flag(m));
    lemma_join(b, p, r, t, ser_string(name) + ser_flag(m), ser_flag(pv));
}

proof fn lemma_field_list_canonical(b: Seq<u8>, p: int, n: nat)
    requires
        0 <= p <= b.len(),
        rd_field_list(b, p, n) is Ok,
    ensures
        wrote(b, p, rd_field_list(b, p, n)->Ok_0.1, ser_field_list(rd_field_list(b, p, n)->Ok_0.0)),
        rd_field_list(b, p, n)->Ok_0.0.len() == n,
    decreases n,
{
    let (s, r) = rd_field_list(b, p, n)->Ok_0;
    if n == 0 {
        assert(b.subrange(p, p) =~= Seq::<u8>::empty());
        assert(ser_field_list(s) =~= Seq::<u8>::empty());
    } else {
        lemma_field_canonical(b, p);
        let (x, q) = rd_field(b, p)->Ok_0;
        lemma_field_list_canonical(b, q, (n - 1) as nat);
        let xs = rd_field_list(b, q, (n - 1) as nat)->Ok_0.0;
        assert(s[0] == x);
        assert(s.drop_first() =~= xs);
        lemma_join(b, p, q, r, ser_field(x), ser_field_list(xs));
    }
}

proof fn lemma_function_canonical(b: Seq<u8>, p: int)
    requires
        0 <= p,
        rd_function(b, p) is Ok,
    ensures
        wrote(b, p, rd_function(b, p)->Ok_0.1, ser_function(rd_function(b, p)->Ok_0.0)),
{
    lemma_c_string(b, p);
    let (name, q) = rd_string(b, p)->Ok_0;
    lemma_c_flag(b, q);
    let (private, r) = rd_flag(b, q)->Ok_0;
    lemma_c_u32(b, r);
    let (n, s) = rd_u32(b, r)->Ok_0;
    lemma_parameter_list_canonical(b, s, n as nat);
    let (parameters, t) = rd_parameter_list(b, s, n as nat)->Ok_0;
    lemma_stmts_canonical(b, t);
    let (body, u) = rd_stmts(b, t)->Ok_0;
    lemma_join(b, p, q, r, ser_string(name), ser_flag(private));
    lemma_join(b, p, r, s, ser_string(name) + ser_flag(private), le32(n as int));
    lemma_join(b, p, s, t, ser_string(name) + ser_flag(private) + le32(n as int), ser_parameter_list(parameters));
    lemma_join(
        b,
        p,
        t,
        u,
        ser_string(name) + ser_flag(private) + le32(n as int) + ser_parameter_list(parameters),
        ser_stmts(body),
    );
}

proof fn lemma_function_list_canonical(b: Seq<u8>, p: int, n: nat)
    requires
        0 <= p <= b.len(),
        rd_function_list(b, p, n) is Ok,
    ensures
        wrote(b, p, rd_function_list(b, p, n)->Ok_0.1, ser_function_list(rd_function_list(b, p, n)->Ok_0.0)),
        rd_function_list(b, p, n)->Ok_0.0.len() == n,
    decreases n,
{
    let (s, r) = rd_function_list(b, p, n)->Ok_0;
    if n == 0 {
        assert(b.subrange(p, p) =~= Seq::<u8>::empty());
        assert(ser_function_list(s) =~= Seq::<u8>::empty());
    } else {
        lemma_function_canonical(b, p);
        let (x, q) = rd_function(b, p)->Ok_0;
        lemma_function_list_canonical(b, q, (n - 1) as nat);
        let xs = rd_function_list(b, q, (n - 1) as nat)->Ok_0.0;
        assert(s[0] == x);
        assert(s.drop_first() =~= xs);
        lemma_join(b, p, q, r, ser_function(x), ser_function_list(xs));
    }
}

#[verifier::rlimit(60)]
proof fn lemma_object_canonical(b: Seq<u8>, p: int)
    requires
        0 <= p,
        rd_object(b, p) is Ok,
    ensures
        wrote(b, p, rd_object(b, p)->Ok_0.1, ser_object(rd_object(b, p)->Ok_0.0)),
{
    lemma_c_string(b, p);
    let (name, q) = rd_string(b, p)->Ok_0;
    lemma_c_u32(b, q);
    let (nf, r) = rd_u32(b, q)->Ok_0;
    lemma_field_list_canonical(b, r, nf as nat);
    let (fields, s) = rd_field_list(b, r, nf as nat)->Ok_0;
    lemma_c_flag(b, s);
    let (has_ctor, t) = rd_flag(b, s)->Ok_0;
    let head = ser_string(name) + le32(nf as int) + ser_field_list(fields);
    lemma_join(b, p, q, r, ser_string(name), le32(nf as int));
    lemma_join(b, p, r, s, ser_string(name) + le32(nf as int), ser_field_list(fields));
    lemma_join(b, p, s, t, head, ser_flag(has_ctor));
    let u: int = if has_ctor {
        lemma_function_canonical(b, t);
        let (c, u) = rd_function(b, t)->Ok_0;
        lemma_join(b, p, t, u, head + ser_flag(has_ctor), ser_function(c));
        assert(head + ser_flag(has_ctor) + ser_function(c) =~= head + (seq![1u8] + ser_function(c)));
        u
    } else {
        assert(ser_flag(has_ctor) =~= seq![0u8]);
        t
    };
    let o = rd_object(b, p)->Ok_0.0;
    let middle = head + match o.constructor {
        Some(c) => seq![1u8] + ser_function(c),
        None => seq![0u8],
    };
    assert(wrote(b, p, u, middle));
    lemma_c_u32(b, u);
    let (nm, v) = rd_u32(b, u)->Ok_0;
    lemma_function_list_canonical(b, v, nm as nat);
    let (methods, w) = rd_function_list(b, v, nm as nat)->Ok_0;
    lemma_join(b, p, u, v, middle, le32(nm as int));
    lemma_join(b, p, v, w, middle + le32(nm as int), ser_function_list(methods));
}

/// An item read is an item written, byte for byte.
#[verifier::rlimit(60)]
pub proof fn lemma_item_canonical(b: Seq<u8>, p: int)
    requires
        0 <= p,
        rd_item(b, p) is Ok,
    ensures
        wrote(b, p, rd_item(b, p)->Ok_0.1, ser_item(rd_item(b, p)->Ok_0.0)),
    decreases b.len() - p, 1nat,
{
    lemma_c_u8(b, p);
    let (tag, p1) = rd_u8(b, p)->Ok_0;
    let (it, q) = rd_item(b, p)->Ok_0;
    if tag == 0 {
        lemma_stmt_canonical(b, p1);
        lemma_join(b, p, p1, q, seq![0u8], ser_stmt(rd_stmt(b, p1)->Ok_0.0));
    } else if tag == 1 {
        lemma_function_canonical(b, p1);
        lemma_join(b, p, p1, q, seq![1u8], ser_function(rd_function(b, p1)->Ok_0.0));
    } else if tag == 2 {
        lemma_object_canonical(b, p1);
        lemma_join(b, p, p1, q, seq![2u8], ser_object(rd_object(b, p1)->Ok_0.0));
    } else if tag == 3 {
        lemma_c_string(b, p1);
        let (name, q1) = rd_string(b, p1)->Ok_0;
        lemma_items_canonical(b, q1);
        lemma_join(b, p, p1, q1, seq![3u8], ser_string(name));
        lemma_join(b, p, q1, q, seq![3u8] + ser_string(name), ser_items(rd_items(b, q1)->Ok_0.0));
    } else {
        lemma_stmts_canonical(b, p1);
        lemma_join(b, p, p1, q, seq![4u8], ser_stmts(rd_stmts(b, p1)->Ok_0.0));
    }
}

/// A counted list of items read is one written.
pub proof fn lemma_items_canonical(b: Seq<u8>, p: int)
    requires
        0 <= p,
        rd_items(b, p) is Ok,
    ensures
        wrote(b, p, rd_items(b, p)->Ok_0.1, ser_items(rd_items(b, p)->Ok_0.0)),
    decreases b.len() - p, 3nat,
{
    lemma_c_u32(b, p);
    let (n, q) = rd_u32(b, p)->Ok_0;
    lemma_item_list_canonical(b, q, n as nat);
    let (s, r) = rd_item_list(b, q, n as nat)->Ok_0;
    lemma_join(b, p, q, r, le32(n as int), ser_item_list(s));
}

pub proof fn lemma_item_list_canonical(b: Seq<u8>, p: int, n: nat)
    requires
        0 <= p <= b.len(),
        rd_item_list(b, p, n) is Ok,
    ensures
        wrote(b, p, rd_item_list(b, p, n)->Ok_0.1, ser_item_list(rd_item_list(b, p, n)->Ok_0.0)),
        rd_item_list(b, p, n)->Ok_0.0.len() == n,
    decreases b.len() - p, n + 2,
{
    let (s, r) = rd_item_list(b, p, n)->Ok_0;
    if n == 0 {
        assert(b.subrange(p, p) =~= Seq::<u8>::empty());
        assert(ser_item_list(s) =~= Seq::<u8>::empty());
    } else {
        lemma_item_canonical(b, p);
        let (x, q) = rd_item(b, p)->Ok_0;
        lemma_item_list_canonical(b, q, (n - 1) as nat);
        let xs = rd_item_list(b, q, (n - 1) as nat)->Ok_0.0;
        assert(s[0] == x);
        assert(s.drop_first() =~= xs);
        lemma_join(b, p, q, r, ser_item(x), ser_item_list(xs));
    }
}

/// The CRST format has one writing for each program: bytes that read as a
/// program are exactly the bytes written for it.
pub proof fn lemma_program_canonical(b: Seq<u8>)
    requires
        rd_program(b) is Ok,
    ensures
        ser_program(rd_program(b)->Ok_0) == b,
{
    let (magic, p) = rd_take(b, 0, 4)->Ok_0;
    lemma_c_u8(b, 4);
    lemma_items_canonical(b, 5);
    let (items, r) = rd_items(b, 5)->Ok_0;
    assert(wrote(b, 0, 4, crst_magic()));
    lemma_join(b, 0, 4, 5, crst_magic(), seq![1u8]);
    lemma_join(b, 0, 5, r, crst_magic() + seq![1u8], ser_items(items));
    assert(b.subrange(0, b.len() as int) =~= b);
}

} // verus!
