use vstd::prelude::*;

use rustls_pemfile::Item;

verus! {

/// Errors of the TLS boundary.
#[derive(Debug)]
pub enum Error {
    /// A TLS file could not be opened.
    OpenFile(String),
    /// A TLS file could not be read or decoded.
    ReadFile(String),
    /// A general TLS I/O error.
    Io(String),
    /// The certificate file held no X.509 certificate.
    NoServerCert,
    /// The key file held no PEM item.
    NoPrivateKey,
    /// The key file's first item is not a recognized private key form.
    InvalidPrivateKey,
    /// The private key could not be turned into a signing key.
    Sign(String),
    /// The crypto provider refused its configuration.
    CryptoProvider(String),
    /// The client certificate verifier could not be built.
    ClientCertVerifier(String),
}

/// One decoded PEM section: its DER payload, tagged with its kind.
#[derive(Debug)]
pub enum PemItem {
    /// An X.509 certificate.
    Cert(Vec<u8>),
    /// An RSA private key as specified in PKCS#1.
    Pkcs1Key(Vec<u8>),
    /// A private key as specified in PKCS#8.
    Pkcs8Key(Vec<u8>),
    /// A private key as specified in SEC1.
    Sec1Key(Vec<u8>),
    /// Any other PEM section.
    Other,
}

/// Mathematical value of one decoded PEM section.
pub enum PemItemV {
    Cert(Seq<u8>),
    Pkcs1Key(Seq<u8>),
    Pkcs8Key(Seq<u8>),
    Sec1Key(Seq<u8>),
    Other,
}

impl View for PemItem {
    type V = PemItemV;

    open spec fn view(&self) -> PemItemV {
        match self {
            PemItem::Cert(d) => PemItemV::Cert(d@),
            PemItem::Pkcs1Key(d) => PemItemV::Pkcs1Key(d@),
            PemItem::Pkcs8Key(d) => PemItemV::Pkcs8Key(d@),
            PemItem::Sec1Key(d) => PemItemV::Sec1Key(d@),
            PemItem::Other => PemItemV::Other,
        }
    }
}

/// The sequence of PEM sections that a well-formed PEM input decodes to.
pub uninterp spec fn pem_items_of(bytes: Seq<u8>) -> Seq<PemItemV>;

/// Whether decoding every PEM section of the input succeeds.
pub uninterp spec fn pem_ok(bytes: Seq<u8>) -> bool;

/// The first PEM section of the input, if any.
pub uninterp spec fn first_pem_item_of(bytes: Seq<u8>) -> Option<PemItemV>;

/// Whether decoding the first PEM section of the input succeeds.
pub uninterp spec fn pem_head_ok(bytes: Seq<u8>) -> bool;

/// The view of an optional decoded section.
pub open spec fn opt_item_view(v: Option<PemItem>) -> Option<PemItemV> {
    match v {
        None => None,
        Some(p) => Some(p@),
    }
}

/// The views of a list of decoded sections.
pub open spec fn item_views(v: Seq<PemItem>) -> Seq<PemItemV> {
    v.map_values(|p: PemItem| p@)
}

/// Relies on rustls_pemfile::read_all: it decodes every PEM section of
/// the input in order; each section is returned as its DER payload,
/// tagged with the section kind. Success depends on the bytes alone.
#[verifier::external_body]
fn read_pem_items(bytes: &Vec<u8>) -> (r: Result<Vec<PemItem>, Error>)
    ensures
        (r is Ok) == pem_ok(bytes@),
        r matches Ok(v) ==> item_views(v@) == pem_items_of(bytes@),
        r matches Err(e) ==> e is ReadFile,
{
    let mut out: Vec<PemItem> = Vec::new();
    for item in rustls_pemfile::read_all(&mut bytes.as_slice()) {
        match item {
            Err(e) => return Err(Error::ReadFile(e.to_string())),
            Ok(Item::X509Certificate(d)) => out.push(PemItem::Cert(d.as_ref().to_vec())),
            Ok(Item::Pkcs1Key(d)) => out.push(PemItem::Pkcs1Key(d.secret_pkcs1_der().to_vec())),
            Ok(Item::Pkcs8Key(d)) => out.push(PemItem::Pkcs8Key(d.secret_pkcs8_der().to_vec())),
            Ok(Item::Sec1Key(d)) => out.push(PemItem::Sec1Key(d.secret_sec1_der().to_vec())),
            Ok(_) => out.push(PemItem::Other),
        }
    }
    Ok(out)
}

/// Relies on rustls_pemfile::read_one: it decodes the first PEM section
/// of the input, leaving whatever follows unread; `None` when the input
/// holds no section. Success depends on the bytes alone.
#[verifier::external_body]
fn read_first_pem_item(bytes: &Vec<u8>) -> (r: Result<Option<PemItem>, Error>)
    ensures
        (r is Ok) == pem_head_ok(bytes@),
        r matches Ok(v) ==> opt_item_view(v) == first_pem_item_of(bytes@),
        r matches Err(e) ==> e is ReadFile,
{
    match rustls_pemfile::read_one(&mut bytes.as_slice()) {
        Err(e) => Err(Error::ReadFile(e.to_string())),
        Ok(None) => Ok(None),
        Ok(Some(Item::X509Certificate(d))) => Ok(Some(PemItem::Cert(d.as_ref().to_vec()))),
        Ok(Some(Item::Pkcs1Key(d))) => Ok(Some(PemItem::Pkcs1Key(d.secret_pkcs1_der().to_vec()))),
        Ok(Some(Item::Pkcs8Key(d))) => Ok(Some(PemItem::Pkcs8Key(d.secret_pkcs8_der().to_vec()))),
        Ok(Some(Item::Sec1Key(d))) => Ok(Some(PemItem::Sec1Key(d.secret_sec1_der().to_vec()))),
        Ok(Some(_)) => Ok(Some(PemItem::Other)),
    }
}

/// The recognized private key forms.
#[derive(Clone, Copy, PartialEq, Eq, Structural, Debug)]
pub enum KeyKind {
    Pkcs1,
    Pkcs8,
    Sec1,
}

/// The plain material a certified key is built from: the DER-encoded
/// certificate chain and the DER-encoded private key with its form.
#[derive(Debug)]
pub struct CertKeyMaterial {
    pub cert_ders: Vec<Vec<u8>>,
    pub key_der: Vec<u8>,
    pub key_kind: KeyKind,
}

/// The DER payloads of the X.509 certificates among the sections, in order.
pub open spec fn cert_payloads(items: Seq<PemItemV>) -> Seq<Seq<u8>>
    decreases items.len(),
{
    if items.len() == 0 {
        Seq::empty()
    } else if items[0] is Cert {
        seq![items[0]->Cert_0] + cert_payloads(items.drop_first())
    } else {
        cert_payloads(items.drop_first())
    }
}

/// The key a recognized first key-file section denotes.
pub open spec fn key_of_item(item: PemItemV) -> Option<(Seq<u8>, KeyKind)> {
    match item {
        PemItemV::Pkcs1Key(d) => Some((d, KeyKind::Pkcs1)),
        PemItemV::Pkcs8Key(d) => Some((d, KeyKind::Pkcs8)),
        PemItemV::Sec1Key(d) => Some((d, KeyKind::Sec1)),
        _ => None,
    }
}

/// What selecting certified key material from the decoded sections of the
/// certificate file and the first section of the key file returns, exactly.
pub open spec fn select_spec(
    cv: Seq<PemItemV>,
    kitem: Option<PemItemV>,
    r: Result<CertKeyMaterial, Error>,
) -> bool {
    match r {
        Ok(mat) => {
            &&& cert_payloads(cv).len() > 0
            &&& mat.cert_ders@.map_values(|d: Vec<u8>| d@) == cert_payloads(cv)
            &&& kitem matches Some(it) && key_of_item(it) == Some((mat.key_der@, mat.key_kind))
        },
        Err(e) => match e {
            Error::NoServerCert => cert_payloads(cv).len() == 0,
            Error::NoPrivateKey => cert_payloads(cv).len() > 0 && kitem is None,
            Error::InvalidPrivateKey => cert_payloads(cv).len() > 0 && (kitem matches Some(it)
                && key_of_item(it) is None),
            _ => false,
        },
    }
}

/// Returns a byte vector with the same bytes.
fn clone_bytes(v: &Vec<u8>) -> (r: Vec<u8>)
    ensures
        r@ == v@,
{
    let mut r: Vec<u8> = Vec::new();
    let mut j: usize = 0;
    while j < v.len()
        invariant
            j <= v.len(),
            r@ == v@.take(j as int),
        decreases v.len() - j,
    {
        r.push(v[j]);
        proof {
            assert(r@ =~= v@.take(j + 1 as int));
        }
        j += 1;
    }
    proof {
        assert(r@ =~= v@);
    }
    r
}

/// Keeps only the X.509 certificates among the decoded sections.
fn collect_certs(items: &Vec<PemItem>) -> (r: Vec<Vec<u8>>)
    ensures
        r@.map_values(|d: Vec<u8>| d@) == cert_payloads(item_views(items@)),
{
    let ghost total = cert_payloads(item_views(items@));
    let mut r: Vec<Vec<u8>> = Vec::new();
    let mut j: usize = 0;
    proof {
        assert(item_views(items@).skip(0) =~= item_views(items@));
        assert(r@.map_values(|d: Vec<u8>| d@) + cert_payloads(item_views(items@).skip(0))
            =~= total);
    }
    while j < items.len()
        invariant
            j <= items@.len(),
            total == cert_payloads(item_views(items@)),
            total =~= r@.map_values(|d: Vec<u8>| d@) + cert_payloads(
                item_views(items@).skip(j as int),
            ),
        decreases items@.len() - j,
    {
        proof {
            assert(item_views(items@).skip(j as int)[0] == items@[j as int]@);
            assert(item_views(items@).skip(j as int).drop_first() =~= item_views(items@).skip(
                j as int + 1,
            ));
        }
        match &items[j] {
            PemItem::Cert(d) => {
                let b = clone_bytes(d);
                r.push(b);
                proof {
                    assert(r@.map_values(|d: Vec<u8>| d@) + cert_payloads(
                        item_views(items@).skip(j as int + 1),
                    ) =~= total);
                }
            },
            _ => {},
        }
        j += 1;
    }
    proof {
        assert(item_views(items@).skip(items@.len() as int) =~= Seq::<PemItemV>::empty());
        assert(r@.map_values(|d: Vec<u8>| d@) =~= total);
    }
    r
}

/// Selects the certified key material from the decoded sections: all
/// X.509 certificates of the certificate file (at least one is owed), and
/// the first section of the key file, which must be a recognized key form.
pub fn select_certified_key(cert_items: &Vec<PemItem>, key_item: &Option<PemItem>) -> (r: Result<
    CertKeyMaterial,
    Error,
>)
    ensures
        select_spec(item_views(cert_items@), opt_item_view(*key_item), r),
{
    let certs = collect_certs(cert_items);
    if certs.len() == 0 {
        return Err(Error::NoServerCert);
    }
    let (key_der, key_kind) = match key_item {
        Some(PemItem::Pkcs1Key(d)) => (clone_bytes(d), KeyKind::Pkcs1),
        Some(PemItem::Pkcs8Key(d)) => (clone_bytes(d), KeyKind::Pkcs8),
        Some(PemItem::Sec1Key(d)) => (clone_bytes(d), KeyKind::Sec1),
        None => {
            return Err(Error::NoPrivateKey);
        },
        Some(_) => {
            return Err(Error::InvalidPrivateKey);
        },
    };
    Ok(CertKeyMaterial { cert_ders: certs, key_der, key_kind })
}

/// The result a load of certified key material from the two file contents
/// is owed: a read error exactly when a needed decode fails (the key file
/// is not touched when the certificate file already yields no
/// certificate), else the selection over the decoded sections.
pub open spec fn load_spec(
    cert_bytes: Seq<u8>,
    key_bytes: Seq<u8>,
    r: Result<CertKeyMaterial, Error>,
) -> bool {
    if !pem_ok(cert_bytes) {
        r matches Err(e) && e is ReadFile
    } else if cert_payloads(pem_items_of(cert_bytes)).len() == 0 {
        r matches Err(e) && e is NoServerCert
    } else if !pem_head_ok(key_bytes) {
        r matches Err(e) && e is ReadFile
    } else {
        select_spec(pem_items_of(cert_bytes), first_pem_item_of(key_bytes), r)
    }
}

/// Loads certified key material from the contents of the certificate file
/// and of the key file: all PEM items are read from the certificate
/// input, only X.509 certificates kept (at least one is owed); exactly one
/// item is read from the key input and must be a recognized private key
/// form, whatever follows it in the file.
pub fn load_certified_key(cert_bytes: &Vec<u8>, key_bytes: &Vec<u8>) -> (r: Result<
    CertKeyMaterial,
    Error,
>)
    ensures
        load_spec(cert_bytes@, key_bytes@, r),
{
    let cert_items = match read_pem_items(cert_bytes) {
        Ok(v) => v,
        Err(e) => {
            return Err(e);
        },
    };
    let certs = collect_certs(&cert_items);
    if certs.len() == 0 {
        return Err(Error::NoServerCert);
    }
    let key_item = match read_first_pem_item(key_bytes) {
        Ok(v) => v,
        Err(e) => {
            return Err(e);
        },
    };
    select_certified_key(&cert_items, &key_item)
}

/// Loads a CA bundle from a file's contents: every X.509 certificate among
/// its PEM sections, in order; other section kinds are skipped.
pub fn load_ca_certificates(bytes: &Vec<u8>) -> (r: Result<Vec<Vec<u8>>, Error>)
    ensures
        (r is Ok) == pem_ok(bytes@),
        r matches Ok(certs) ==> certs@.map_values(|d: Vec<u8>| d@) == cert_payloads(
            pem_items_of(bytes@),
        ),
        r matches Err(e) ==> e is ReadFile,
{
    let items = match read_pem_items(bytes) {
        Ok(v) => v,
        Err(e) => {
            return Err(e);
        },
    };
    Ok(collect_certs(&items))
}

/// A certified key's material together with the monotonic-clock reading
/// at which it was last loaded. Clock readings are plain ticks; the
/// caller measures them on a steady clock.
pub struct CertifiedKeyWithAge {
    pub last_update: u64,
    pub key: CertKeyMaterial,
}

impl CertifiedKeyWithAge {
    /// Wraps freshly loaded material, stamped with the present reading.
    pub fn from(key: CertKeyMaterial, now: u64) -> (r: CertifiedKeyWithAge)
        ensures
            r.last_update == now,
            r.key == key,
    {
        CertifiedKeyWithAge { last_update: now, key }
    }

    /// Replaces the material by a successful reload; a failed reload
    /// keeps the present material and hands the error back.
    pub fn refresh(&mut self, loaded: Result<CertKeyMaterial, Error>, now: u64) -> (r: Result<
        (),
        Error,
    >)
        ensures
            match loaded {
                Ok(k) => final(self).key == k && final(self).last_update == now && r is Ok,
                Err(_) => *final(self) == *old(self) && r is Err,
            },
    {
        match loaded {
            Ok(k) => {
                *self = Self::from(k, now);
                Ok(())
            },
            Err(e) => Err(e),
        }
    }

    /// The time passed since the material was loaded.
    pub fn age(&self, now: u64) -> (r: u64)
        requires
            now >= self.last_update,
        ensures
            r == now - self.last_update,
    {
        now - self.last_update
    }

    /// Whether the material has outlived the TTL.
    pub fn is_expired(&self, now: u64, ttl: u64) -> (r: bool)
        requires
            now >= self.last_update,
        ensures
            r == (now - self.last_update >= ttl),
    {
        self.age(now) >= ttl
    }
}

/// A TTL of zero (or none) disables rotation.
pub fn normalize_ttl(cert_ttl: Option<u64>) -> (r: Option<u64>)
    ensures
        r == match cert_ttl {
            None => None::<u64>,
            Some(t) => if t == 0 {
                None::<u64>
            } else {
                Some(t)
            },
        },
{
    match cert_ttl {
        None => None,
        Some(0) => None,
        Some(t) => Some(t),
    }
}

/// A TTL-rotating server certificate state: the current certified key
/// material and the rotation deadline discipline. The caller performs the
/// clock reads and the disk reloads and feeds their outcomes in.
pub struct RotatingCertificateResolver {
    pub ttl: Option<u64>,
    pub key: CertifiedKeyWithAge,
}

/// The resolver state after a reload outcome was applied: a successful
/// reload installs the new material with a fresh stamp; a failed one
/// keeps the old material, so a key is always served while one exists.
pub open spec fn refreshed(
    pre: RotatingCertificateResolver,
    loaded: Result<CertKeyMaterial, Error>,
    now: u64,
) -> RotatingCertificateResolver {
    match loaded {
        Ok(k) => RotatingCertificateResolver {
            ttl: pre.ttl,
            key: CertifiedKeyWithAge { last_update: now, key: k },
        },
        Err(_) => pre,
    }
}

impl RotatingCertificateResolver {
    /// Builds the resolver from the two PEM file contents, a normalized
    /// TTL and the present clock reading. It succeeds exactly when the
    /// load does, storing the loaded material at age zero; otherwise the
    /// load's error comes back: TLS errors are fatal at startup.
    pub fn new(cert_bytes: &Vec<u8>, key_bytes: &Vec<u8>, ttl: Option<u64>, now: u64) -> (r:
        Result<RotatingCertificateResolver, Error>)
        ensures
            r matches Ok(res) ==> res.ttl == ttl && res.key.last_update == now,
            load_spec(
                cert_bytes@,
                key_bytes@,
                match r {
                    Ok(res) => Ok(res.key.key),
                    Err(e) => Err(e),
                },
            ),
    {
        let certified_key = load_certified_key(cert_bytes, key_bytes)?;
        Ok(RotatingCertificateResolver { ttl, key: CertifiedKeyWithAge::from(certified_key, now) })
    }

    /// The fast-path decision: a handshake triggers a reload exactly when
    /// a TTL is configured and the current material has outlived it.
    pub fn needs_refresh(&self, now: u64) -> (r: bool)
        requires
            now >= self.key.last_update,
        ensures
            r == match self.ttl {
                Some(t) => now - self.key.last_update >= t,
                None => false,
            },
    {
        match self.ttl {
            Some(t) => self.key.is_expired(now, t),
            None => false,
        }
    }

    /// Applies the outcome of a disk reload: a success installs the new
    /// material; a failure is absorbed and the previous key kept.
    pub fn apply_refresh(&mut self, loaded: Result<CertKeyMaterial, Error>, now: u64)
        ensures
            *final(self) == refreshed(*old(self), loaded, now),
    {
        let _ = self.key.refresh(loaded, now);
    }

    /// The certified key material a handshake serves.
    pub fn current_key(&self) -> (r: &CertKeyMaterial)
        ensures
            r == self.key.key,
    {
        &self.key.key
    }
}

/// After a TTL expiry with a successful disk reload, handshakes observe
/// the newly loaded key, and the new stamp absorbs immediate re-checks;
/// after a failed reload they still observe the previous key.
pub proof fn lemma_ttl_rotation(
    pre: RotatingCertificateResolver,
    loaded: Result<CertKeyMaterial, Error>,
    now: u64,
)
    ensures
        loaded matches Ok(k) ==> refreshed(pre, loaded, now).key.key == k,
        loaded matches Ok(k) ==> refreshed(pre, loaded, now).key.last_update == now,
        loaded is Err ==> refreshed(pre, loaded, now) == pre,
{
}

/// With no TTL (or a TTL of zero, normalized away) the initial key is
/// used forever: no clock reading ever triggers a reload.
pub proof fn lemma_no_ttl_no_refresh(res: RotatingCertificateResolver, now: u64)
    requires
        res.ttl is None,
        now >= res.key.last_update,
    ensures
        !(match res.ttl {
            Some(t) => now - res.key.last_update >= t,
            None => false,
        }),
{
}

} // verus!
