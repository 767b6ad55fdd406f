use vstd::prelude::*;

verus! {

use vstd::string::StringSliceAdditionalSpecFns;
use crate::kv_key::{
    KeyBuilder,
    KeyParser,
    KeyError,
    ascii_bytes,
    chars_of_bytes,
    bytes_all_ascii,
    escape_bytes,
    dec_digits,
    seg_to_str,
    seg_to_u64,
    seg_no_slash,
    segs_no_slash,
    is_plain_key_byte,
    join_segs,
    split_slash,
    push_dec_u64,
    string_from_ascii_bytes,
    lemma_unescape_escape,
    lemma_escape_bytes_ascii,
    lemma_dec_digits_wf,
    lemma_split_join,
    SLASH,
};
use crate::tenant::Tenant;

/// A marker type describing one key space of the meta-service: its fixed
/// prefix and whether its keys carry a tenant segment.
pub trait TenantResource {
    spec fn prefix_spec() -> Seq<char>;

    spec fn has_tenant_spec() -> bool;

    /// The prefix is non-empty and consists of plain key bytes only.
    proof fn lemma_prefix_wf()
        ensures
            Self::prefix_spec().len() > 0,
            vstd::utf8::is_ascii_chars(Self::prefix_spec()),
            forall|i: int|
                0 <= i < Self::prefix_spec().len() ==> is_plain_key_byte(
                    #[trigger] ascii_bytes(Self::prefix_spec())[i],
                ),
    ;

    fn prefix() -> (s: &'static str)
        ensures
            s@ == Self::prefix_spec(),
            s.is_ascii(),
    ;

    fn has_tenant() -> (b: bool)
        ensures
            b == Self::has_tenant_spec(),
    ;
}

/// How a name type is written into and read back from key segments.
pub trait KeyCodec: Sized {
    /// Whether this value can be encoded.
    spec fn codec_wf(&self) -> bool;

    /// The canonical segments this value appends to a key.
    spec fn enc_segs(&self) -> Seq<Seq<u8>>;

    /// The fixed number of segments this type occupies.
    spec fn seg_count() -> nat;

    /// Whether the given segments are a valid reading of the given value.
    spec fn decodes_to(segs: Seq<Seq<u8>>, v: Self) -> bool;

    /// Value-level equality as far as the codec can state it.
    spec fn eq_view(&self, other: &Self) -> bool;

    /// The canonical encoding reads back as the same value.
    proof fn lemma_codec_round_trip(&self)
        requires
            self.codec_wf(),
        ensures
            self.enc_segs().len() == Self::seg_count(),
            segs_no_slash(self.enc_segs()),
            Self::decodes_to(self.enc_segs(), *self),
    ;

    /// A segment window reads back as at most one value.
    proof fn lemma_decodes_deterministic(segs: Seq<Seq<u8>>, a: Self, b: Self)
        requires
            Self::decodes_to(segs, a),
            Self::decodes_to(segs, b),
        ensures
            a.eq_view(&b),
    ;

    fn encode_key(&self, b: KeyBuilder) -> (r: KeyBuilder)
        requires
            self.codec_wf(),
        ensures
            r@ == b@ + self.enc_segs(),
            b.wf() ==> r.wf(),
    ;

    fn decode_key(p: &mut KeyParser) -> (r: Result<Self, KeyError>)
        requires
            old(p).wf(),
        ensures
            final(p).wf(),
            final(p).segs() == old(p).segs(),
            match r {
                Ok(v) => old(p).pos() + Self::seg_count() <= old(p).segs().len() && final(p).pos()
                    == old(p).pos() + Self::seg_count() && v.codec_wf() && Self::decodes_to(
                    old(p).segs().subrange(
                        old(p).pos(),
                        old(p).pos() + Self::seg_count() as int,
                    ),
                    v,
                ),
                Err(_) => forall|v: Self|
                    old(p).pos() + Self::seg_count() <= old(p).segs().len()
                        ==> !#[trigger] Self::decodes_to(
                        old(p).segs().subrange(
                            old(p).pos(),
                            old(p).pos() + Self::seg_count() as int,
                        ),
                        v,
                    ),
            },
    ;

    /// An owned copy with the same value.
    fn key_clone(&self) -> (r: Self)
        ensures
            r.eq_view(self),
            self.eq_view(&r),
            r.codec_wf() <==> self.codec_wf(),
    ;
}

impl KeyCodec for String {
    open spec fn codec_wf(&self) -> bool {
        true
    }

    open spec fn enc_segs(&self) -> Seq<Seq<u8>> {
        seq![escape_bytes(vstd::utf8::encode_utf8(self@))]
    }

    open spec fn seg_count() -> nat {
        1
    }

    open spec fn decodes_to(segs: Seq<Seq<u8>>, v: Self) -> bool {
        segs.len() == 1 && seg_to_str(segs[0]) == Some(v@)
    }

    open spec fn eq_view(&self, other: &Self) -> bool {
        self@ == other@
    }

    proof fn lemma_codec_round_trip(&self) {
        lemma_unescape_escape(vstd::utf8::encode_utf8(self@));
        lemma_escape_bytes_ascii(vstd::utf8::encode_utf8(self@));
        vstd::utf8::encode_utf8_valid_utf8(self@);
        vstd::utf8::encode_utf8_decode_utf8(self@);
        assert(seg_no_slash(escape_bytes(vstd::utf8::encode_utf8(self@))));
        assert(seg_to_str(escape_bytes(vstd::utf8::encode_utf8(self@))) == Some(self@));
    }

    proof fn lemma_decodes_deterministic(segs: Seq<Seq<u8>>, a: Self, b: Self) {
    }

    fn encode_key(&self, b: KeyBuilder) -> (r: KeyBuilder) {
        let sl = self.as_str();
        proof {
            assert(sl.spec_bytes() == vstd::utf8::encode_utf8(self@));
            assert(b@.push(escape_bytes(vstd::utf8::encode_utf8(self@))) =~= b@
                + self.enc_segs());
        }
        b.push_escaped(sl)
    }

    fn decode_key(p: &mut KeyParser) -> (r: Result<Self, KeyError>) {
        let r = p.next_str();
        match r {
            Ok(v) => {
                proof {
                    let seg = old(p).segs()[old(p).pos()];
                    assert(old(p).segs().subrange(old(p).pos(), old(p).pos() + 1) =~= seq![seg]);
                }
                Ok(v)
            },
            Err(e) => {
                proof {
                    if old(p).pos() + 1 <= old(p).segs().len() {
                        let seg = old(p).segs()[old(p).pos()];
                        assert(old(p).segs().subrange(old(p).pos(), old(p).pos() + 1)
                            =~= seq![seg]);
                        assert(seg_to_str(seg) is None);
                    }
                }
                Err(e)
            },
        }
    }

    fn key_clone(&self) -> (r: Self) {
        self.clone()
    }
}

impl KeyCodec for u64 {
    open spec fn codec_wf(&self) -> bool {
        true
    }

    open spec fn enc_segs(&self) -> Seq<Seq<u8>> {
        seq![dec_digits(*self as nat)]
    }

    open spec fn seg_count() -> nat {
        1
    }

    open spec fn decodes_to(segs: Seq<Seq<u8>>, v: Self) -> bool {
        segs.len() == 1 && seg_to_u64(segs[0]) == Some(v)
    }

    open spec fn eq_view(&self, other: &Self) -> bool {
        self == other
    }

    proof fn lemma_codec_round_trip(&self) {
        lemma_dec_digits_wf(*self as nat);
        let d = dec_digits(*self as nat);
        assert forall|i: int| 0 <= i < d.len() implies #[trigger] d[i] != SLASH by {
            assert(crate::kv_key::is_dec_byte(d[i]));
        }
        assert(seg_to_u64(d) == Some(*self));
    }

    proof fn lemma_decodes_deterministic(segs: Seq<Seq<u8>>, a: Self, b: Self) {
    }

    fn encode_key(&self, b: KeyBuilder) -> (r: KeyBuilder) {
        proof {
            assert(b@.push(dec_digits(*self as nat)) =~= b@ + self.enc_segs());
        }
        b.push_u64(*self)
    }

    fn decode_key(p: &mut KeyParser) -> (r: Result<Self, KeyError>) {
        let r = p.next_u64();
        match r {
            Ok(v) => {
                proof {
                    let seg = old(p).segs()[old(p).pos()];
                    assert(old(p).segs().subrange(old(p).pos(), old(p).pos() + 1) =~= seq![seg]);
                }
                Ok(v)
            },
            Err(e) => {
                proof {
                    if old(p).pos() + 1 <= old(p).segs().len() {
                        let seg = old(p).segs()[old(p).pos()];
                        assert(old(p).segs().subrange(old(p).pos(), old(p).pos() + 1)
                            =~= seq![seg]);
                        assert(seg_to_u64(seg) is None);
                    }
                }
                Err(e)
            },
        }
    }

    fn key_clone(&self) -> (r: Self) {
        *self
    }
}

impl KeyCodec for () {
    open spec fn codec_wf(&self) -> bool {
        true
    }

    open spec fn enc_segs(&self) -> Seq<Seq<u8>> {
        Seq::empty()
    }

    open spec fn seg_count() -> nat {
        0
    }

    open spec fn decodes_to(segs: Seq<Seq<u8>>, v: Self) -> bool {
        segs.len() == 0
    }

    open spec fn eq_view(&self, other: &Self) -> bool {
        true
    }

    proof fn lemma_codec_round_trip(&self) {
        assert(self.enc_segs() =~= Seq::<Seq<u8>>::empty());
    }

    proof fn lemma_decodes_deterministic(segs: Seq<Seq<u8>>, a: Self, b: Self) {
    }

    fn encode_key(&self, b: KeyBuilder) -> (r: KeyBuilder) {
        proof {
            assert(b@ + self.enc_segs() =~= b@);
        }
        b
    }

    fn decode_key(p: &mut KeyParser) -> (r: Result<Self, KeyError>) {
        proof {
            assert(old(p).segs().subrange(old(p).pos(), old(p).pos() + 0) =~= Seq::<
                Seq<u8>,
            >::empty());
        }
        Ok(())
    }

    fn key_clone(&self) -> (r: Self) {
    }
}

/// The tenant name that keys of tenant-less resources decode to.
pub open spec fn dummy_tenant_name() -> Seq<char> {
    "dummy"@
}

/// A tenant-scoped meta-service key of the form `<PREFIX>/<TENANT>/<NAME>`
/// (the tenant segment is dropped for tenant-less resources).
#[derive(Debug, PartialEq, Eq)]
pub struct TIdent<R, N = String> {
    pub tenant: Tenant,
    pub name: N,
    pub _p: core::marker::PhantomData<R>,
}

/// The same identity with the tenant reduced to its plain name, usable as a
/// stored value.
#[derive(Debug, PartialEq, Eq)]
pub struct TIdentRaw<R, N = String> {
    pub tenant: String,
    pub name: N,
    pub _p: core::marker::PhantomData<R>,
}

impl<R, N> TIdent<R, N> {
    pub fn new_generic(tenant: Tenant, name: N) -> (r: Self)
        ensures
            r.tenant == tenant,
            r.name == name,
    {
        TIdent { tenant, name, _p: core::marker::PhantomData }
    }

    /// Adopt an identity from a different resource with the same name type.
    pub fn new_from<T>(other: TIdent<T, N>) -> (r: Self)
        ensures
            r.tenant == other.tenant,
            r.name == other.name,
    {
        TIdent { tenant: other.tenant, name: other.name, _p: core::marker::PhantomData }
    }

    pub fn unpack(self) -> (r: (Tenant, N))
        ensures
            r.0 == self.tenant,
            r.1 == self.name,
    {
        (self.tenant, self.name)
    }

    pub fn name(&self) -> (r: &N)
        ensures
            r == &self.name,
    {
        &self.name
    }

    pub fn tenant(&self) -> (r: &Tenant)
        ensures
            r == &self.tenant,
    {
        &self.tenant
    }

    pub fn tenant_name(&self) -> (r: &str)
        ensures
            r@ == self.tenant.name_spec(),
    {
        self.tenant.tenant_name()
    }
}

impl<R> TIdent<R, String> {
    pub fn new(tenant: Tenant, name: &str) -> (r: Self)
        ensures
            r.tenant == tenant,
            r.name@ == name@,
    {
        TIdent { tenant, name: name.to_owned(), _p: core::marker::PhantomData }
    }

    /// The identity as `'<tenant>'/'<name>'`.
    pub fn display(&self) -> (r: String)
        ensures
            r@ == "'"@ + self.tenant.name_spec() + "'/'"@ + self.name@ + "'"@,
    {
        let mut s = String::new();
        s.append("'");
        s.append(self.tenant.tenant_name());
        s.append("'/'");
        s.append(self.name.as_str());
        s.append("'");
        s
    }
}

impl<R> TIdent<R, u64> {
    pub fn new(tenant: Tenant, name: u64) -> (r: Self)
        ensures
            r.tenant == tenant,
            r.name == name,
    {
        TIdent { tenant, name, _p: core::marker::PhantomData }
    }

    /// The identity as `'<tenant>'/'<id>'`.
    pub fn display(&self) -> (r: String)
        ensures
            r@ == "'"@ + self.tenant.name_spec() + "'/'"@ + chars_of_bytes(
                dec_digits(self.name as nat),
            ) + "'"@,
    {
        let mut buf: Vec<u8> = Vec::new();
        push_dec_u64(&mut buf, self.name);
        proof {
            lemma_dec_digits_wf(self.name as nat);
            assert(Seq::<u8>::empty() + dec_digits(self.name as nat) =~= dec_digits(
                self.name as nat,
            ));
            assert(bytes_all_ascii(buf@));
        }
        let num = string_from_ascii_bytes(buf);
        let mut s = String::new();
        s.append("'");
        s.append(self.tenant.tenant_name());
        s.append("'/'");
        s.append(num.as_str());
        s.append("'");
        s
    }
}

impl<R> TIdent<R, ()> {
    pub fn new(tenant: Tenant) -> (r: Self)
        ensures
            r.tenant == tenant,
    {
        TIdent { tenant, name: (), _p: core::marker::PhantomData }
    }
}

impl<R: TenantResource, N: KeyCodec> TIdent<R, N> {
    /// A key-encodable identity: usable tenant, encodable name.
    pub open spec fn wf(&self) -> bool {
        self.tenant.wf() && self.name.codec_wf()
    }

    /// The segments of this identity's key.
    pub open spec fn key_segs(&self) -> Seq<Seq<u8>> {
        seq![ascii_bytes(R::prefix_spec())] + (if R::has_tenant_spec() {
            seq![escape_bytes(vstd::utf8::encode_utf8(self.tenant.name_spec()))]
        } else {
            Seq::<Seq<u8>>::empty()
        }) + self.name.enc_segs()
    }

    /// The bytes of this identity's key string.
    pub open spec fn key_bytes(&self) -> Seq<u8> {
        join_segs(self.key_segs())
    }

    /// Whether `bytes` is a key string that reads back as `id`.
    pub open spec fn key_decodes_to(bytes: Seq<u8>, id: TIdent<R, N>) -> bool {
        let segs = split_slash(bytes);
        let tn: int = if R::has_tenant_spec() {
            1
        } else {
            0
        };
        &&& segs.len() == 1 + tn + N::seg_count()
        &&& segs[0] == ascii_bytes(R::prefix_spec())
        &&& (if R::has_tenant_spec() {
            seg_to_str(segs[1]) == Some(id.tenant.name_spec()) && id.tenant.name_spec().len() > 0
        } else {
            id.tenant.name_spec() == dummy_tenant_name()
        })
        &&& N::decodes_to(segs.subrange(1 + tn, segs.len() as int), id.name)
    }

    /// The same identity up to the value equality the codec can state.
    pub open spec fn same_ident(a: TIdent<R, N>, b: TIdent<R, N>) -> bool {
        a.tenant.name_spec() == b.tenant.name_spec() && a.name.eq_view(&b.name)
    }

    /// The canonical key of a well-formed identity reads back as that
    /// identity.  A tenant-less resource drops the tenant from its key, so
    /// there the identity must already carry the decode-side default tenant.
    pub proof fn lemma_key_round_trip(id: TIdent<R, N>)
        requires
            id.wf(),
            !R::has_tenant_spec() ==> id.tenant.name_spec() == dummy_tenant_name(),
        ensures
            Self::key_decodes_to(id.key_bytes(), id),
    {
        let segs = id.key_segs();
        let tn: int = if R::has_tenant_spec() {
            1
        } else {
            0
        };
        R::lemma_prefix_wf();
        id.name.lemma_codec_round_trip();
        let tb = vstd::utf8::encode_utf8(id.tenant.name_spec());
        vstd::utf8::encode_utf8_valid_utf8(id.tenant.name_spec());
        vstd::utf8::encode_utf8_decode_utf8(id.tenant.name_spec());
        lemma_escape_bytes_ascii(tb);
        lemma_unescape_escape(tb);
        assert(segs.len() == 1 + tn + N::seg_count());
        assert(segs_no_slash(segs)) by {
            assert forall|i: int| 0 <= i < segs.len() implies seg_no_slash(#[trigger] segs[i]) by {
                if i == 0 {
                    assert(segs[0] == ascii_bytes(R::prefix_spec()));
                    assert forall|j: int| 0 <= j < segs[0].len() implies #[trigger] segs[0][j]
                        != SLASH by {
                        assert(is_plain_key_byte(ascii_bytes(R::prefix_spec())[j]));
                    }
                } else if R::has_tenant_spec() && i == 1 {
                    assert(segs[1] == escape_bytes(tb));
                } else {
                    assert(segs[i] == id.name.enc_segs()[i - 1 - tn]);
                    assert(seg_no_slash(id.name.enc_segs()[i - 1 - tn]));
                }
            }
        }
        lemma_split_join(segs);
        assert(split_slash(id.key_bytes()) == segs);
        if R::has_tenant_spec() {
            assert(segs[1] == escape_bytes(tb));
            assert(seg_to_str(segs[1]) == Some(id.tenant.name_spec()));
        }
        assert(segs.subrange(1 + tn, segs.len() as int) =~= id.name.enc_segs());
    }

    /// A key string reads back as at most one identity.
    pub proof fn lemma_key_injective(bytes: Seq<u8>, a: TIdent<R, N>, b: TIdent<R, N>)
        requires
            Self::key_decodes_to(bytes, a),
            Self::key_decodes_to(bytes, b),
        ensures
            Self::same_ident(a, b),
    {
        let segs = split_slash(bytes);
        let tn: int = if R::has_tenant_spec() {
            1
        } else {
            0
        };
        N::lemma_decodes_deterministic(segs.subrange(1 + tn, segs.len() as int), a.name, b.name);
    }

    /// Render this identity as its meta-service key string.
    pub fn to_string_key(&self) -> (r: String)
        requires
            self.wf(),
        ensures
            ascii_bytes(r@) == self.key_bytes(),
            r@ == chars_of_bytes(self.key_bytes()),
            vstd::utf8::is_ascii_chars(r@),
    {
        proof {
            R::lemma_prefix_wf();
            assert(seg_no_slash(ascii_bytes(R::prefix_spec()))) by {
                assert forall|j: int|
                    0 <= j < ascii_bytes(R::prefix_spec()).len() implies #[trigger] ascii_bytes(
                    R::prefix_spec(),
                )[j] != SLASH by {
                    assert(is_plain_key_byte(ascii_bytes(R::prefix_spec())[j]));
                }
            }
        }
        let mut b = KeyBuilder::new_prefixed(R::prefix());
        if R::has_tenant() {
            let t = self.tenant.tenant_name();
            proof {
                assert(t.spec_bytes() == vstd::utf8::encode_utf8(self.tenant.name_spec()));
            }
            b = b.push_escaped(t);
        }
        let b2 = self.name.encode_key(b);
        proof {
            assert(b2@ =~= self.key_segs());
            assert(self.key_segs().len() >= 1);
        }
        b2.done()
    }

    /// Read an identity back from a key string; exact about every failure.
    pub fn from_str_key(s: &str) -> (r: Result<Self, KeyError>)
        ensures
            match r {
                Ok(id) => id.wf() && Self::key_decodes_to(s.spec_bytes(), id),
                Err(_) => forall|id: TIdent<R, N>|
                    !Self::key_decodes_to(s.spec_bytes(), id),
            },
    {
        let ghost gsegs = split_slash(s.spec_bytes());
        let ghost tn: int = if R::has_tenant_spec() {
            1
        } else {
            0
        };
        let mut p = KeyParser::new(s);
        let prefix_seg = match p.next_raw() {
            Ok(v) => v,
            Err(e) => {
                return Err(e);
            },
        };
        let pstr = R::prefix();
        let pb = pstr.as_bytes_vec();
        proof {
            vstd::string::is_ascii_spec_bytes(pstr);
            assert(pb@ =~= ascii_bytes(R::prefix_spec()));
        }
        if !crate::kv_key::bytes_eq(prefix_seg.as_slice(), pb.as_slice()) {
            proof {
                assert forall|id: TIdent<R, N>| !Self::key_decodes_to(s.spec_bytes(), id) by {
                    assert(gsegs[0] != ascii_bytes(R::prefix_spec()));
                }
            }
            return Err(KeyError::WrongPrefix);
        }
        let tenant = if R::has_tenant() {
            let tname = match p.next_nonempty() {
                Ok(v) => v,
                Err(_) => {
                    proof {
                        assert forall|id: TIdent<R, N>|
                            !Self::key_decodes_to(s.spec_bytes(), id) by {
                            if gsegs.len() >= 2 {
                                assert(!(seg_to_str(gsegs[1]) is Some
                                    && seg_to_str(gsegs[1]).unwrap().len() > 0));
                            }
                        }
                    }
                    return Err(KeyError::EmptySegment);
                },
            };
            Tenant::new_nonempty(tname)
        } else {
            proof {
                reveal_strlit("dummy");
            }
            Tenant::new_literal("dummy")
        };
        let name = match N::decode_key(&mut p) {
            Ok(v) => v,
            Err(_) => {
                proof {
                    assert forall|id: TIdent<R, N>| !Self::key_decodes_to(s.spec_bytes(), id) by {
                        if gsegs.len() == 1 + tn + N::seg_count() {
                            assert(1 + tn + N::seg_count() <= gsegs.len());
                            assert(!N::decodes_to(
                                gsegs.subrange(1 + tn, (1 + tn + N::seg_count()) as int),
                                id.name,
                            ));
                            assert(gsegs.subrange(1 + tn, (1 + tn + N::seg_count()) as int)
                                =~= gsegs.subrange(1 + tn, gsegs.len() as int));
                        }
                    }
                }
                return Err(KeyError::WrongNumberOfSegments);
            },
        };
        match p.expect_end() {
            Ok(_) => {},
            Err(e) => {
                proof {
                    assert forall|id: TIdent<R, N>| !Self::key_decodes_to(s.spec_bytes(), id) by {
                        assert(gsegs.len() != 1 + tn + N::seg_count());
                    }
                }
                return Err(e);
            },
        }
        let id = TIdent { tenant, name, _p: core::marker::PhantomData };
        proof {
            assert(gsegs.subrange(1 + tn, gsegs.len() as int) =~= gsegs.subrange(
                1 + tn,
                (1 + tn + N::seg_count()) as int,
            ));
            assert(Self::key_decodes_to(s.spec_bytes(), id));
        }
        Ok(id)
    }

    /// Reduce to the raw form that can be stored as a value.
    pub fn to_raw(&self) -> (r: TIdentRaw<R, N>)
        ensures
            r.tenant@ == self.tenant.name_spec(),
            r.name.eq_view(&self.name),
            r.name.codec_wf() <==> self.name.codec_wf(),
    {
        TIdentRaw {
            tenant: self.tenant.tenant_name().to_owned(),
            name: self.name.key_clone(),
            _p: core::marker::PhantomData,
        }
    }
}

/// A minimal resource with prefix `foo` and a tenant segment, handy for
/// exercising the key codec on its own.
#[derive(Debug, Clone, Copy, PartialEq, Eq)]
pub struct SampleResource;

impl TenantResource for SampleResource {
    open spec fn prefix_spec() -> Seq<char> {
        "foo"@
    }

    open spec fn has_tenant_spec() -> bool {
        true
    }

    proof fn lemma_prefix_wf() {
        reveal_strlit("foo");
        assert forall|i: int| 0 <= i < Self::prefix_spec().len() implies is_plain_key_byte(
            #[trigger] ascii_bytes(Self::prefix_spec())[i],
        ) by {
            assert(ascii_bytes(Self::prefix_spec())[i] == Self::prefix_spec()[i] as u8);
        }
    }

    fn prefix() -> (s: &'static str) {
        proof {
            reveal_strlit("foo");
        }
        "foo"
    }

    fn has_tenant() -> (b: bool) {
        true
    }
}

impl<R, N> TIdentRaw<R, N> {
    pub fn new_generic(tenant: String, name: N) -> (r: Self)
        ensures
            r.tenant == tenant,
            r.name == name,
    {
        TIdentRaw { tenant, name, _p: core::marker::PhantomData }
    }

    pub fn name(&self) -> (r: &N)
        ensures
            r == &self.name,
    {
        &self.name
    }

    pub fn tenant_name(&self) -> (r: &str)
        ensures
            r@ == self.tenant@,
    {
        self.tenant.as_str()
    }
}

} // verus!
