//! Text and binary forms of scalar values.
use vstd::prelude::*;
use vstd::string::StringSliceAdditionalSpecFns;
use crate::wire::{be_i16, be_i32, be_i64, decimal, push_be_i16, push_be_i32, push_be_i64, push_decimal};

verus! {

/// A value with a text form and a binary form on the wire.
pub trait ToWire {
    spec fn text_spec(&self) -> Seq<u8>;

    spec fn binary_spec(&self) -> Seq<u8>;

    fn to_text(&self) -> (r: Vec<u8>)
        ensures
            r@ == self.text_spec(),
    ;

    fn to_binary(&self) -> (r: Vec<u8>)
        ensures
            r@ == self.binary_spec(),
    ;
}

impl ToWire for i16 {
    open spec fn text_spec(&self) -> Seq<u8> {
        decimal(*self as int)
    }

    open spec fn binary_spec(&self) -> Seq<u8> {
        be_i16(*self)
    }

    fn to_text(&self) -> (r: Vec<u8>) {
        let mut r: Vec<u8> = Vec::new();
        push_decimal(&mut r, *self as i64);
        assert(r@ =~= decimal(*self as int));
        r
    }

    fn to_binary(&self) -> (r: Vec<u8>) {
        let mut r: Vec<u8> = Vec::new();
        push_be_i16(&mut r, *self);
        assert(r@ =~= be_i16(*self));
        r
    }
}

impl ToWire for i32 {
    open spec fn text_spec(&self) -> Seq<u8> {
        decimal(*self as int)
    }

    open spec fn binary_spec(&self) -> Seq<u8> {
        be_i32(*self)
    }

    fn to_text(&self) -> (r: Vec<u8>) {
        let mut r: Vec<u8> = Vec::new();
        push_decimal(&mut r, *self as i64);
        assert(r@ =~= decimal(*self as int));
        r
    }

    fn to_binary(&self) -> (r: Vec<u8>) {
        let mut r: Vec<u8> = Vec::new();
        push_be_i32(&mut r, *self);
        assert(r@ =~= be_i32(*self));
        r
    }
}

impl ToWire for i64 {
    open spec fn text_spec(&self) -> Seq<u8> {
        decimal(*self as int)
    }

    open spec fn binary_spec(&self) -> Seq<u8> {
        be_i64(*self)
    }

    fn to_text(&self) -> (r: Vec<u8>) {
        let mut r: Vec<u8> = Vec::new();
        push_decimal(&mut r, *self);
        assert(r@ =~= decimal(*self as int));
        r
    }

    fn to_binary(&self) -> (r: Vec<u8>) {
        let mut r: Vec<u8> = Vec::new();
        push_be_i64(&mut r, *self);
        assert(r@ =~= be_i64(*self));
        r
    }
}

impl ToWire for bool {
    open spec fn text_spec(&self) -> Seq<u8> {
        if *self { seq![116u8] } else { seq![102u8] }
    }

    open spec fn binary_spec(&self) -> Seq<u8> {
        if *self { seq![1u8] } else { seq![0u8] }
    }

    fn to_text(&self) -> (r: Vec<u8>) {
        let mut r: Vec<u8> = Vec::new();
        r.push(if *self { 116u8 } else { 102u8 });
        assert(r@ =~= self.text_spec());
        r
    }

    fn to_binary(&self) -> (r: Vec<u8>) {
        let mut r: Vec<u8> = Vec::new();
        r.push(if *self { 1u8 } else { 0u8 });
        assert(r@ =~= self.binary_spec());
        r
    }
}

impl ToWire for String {
    open spec fn text_spec(&self) -> Seq<u8> {
        vstd::utf8::encode_utf8(self@)
    }

    open spec fn binary_spec(&self) -> Seq<u8> {
        vstd::utf8::encode_utf8(self@)
    }

    fn to_text(&self) -> (r: Vec<u8>) {
        let mut r: Vec<u8> = Vec::new();
        crate::wire::push_all(&mut r, self.as_str().as_bytes());
        assert(r@ =~= self.text_spec());
        r
    }

    fn to_binary(&self) -> (r: Vec<u8>) {
        let mut r: Vec<u8> = Vec::new();
        crate::wire::push_all(&mut r, self.as_str().as_bytes());
        assert(r@ =~= self.binary_spec());
        r
    }
}

} // verus!
