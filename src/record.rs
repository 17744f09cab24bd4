//! Records: ordered sequences of named text fields, as they travel from the
//! collector to the service.
use vstd::prelude::*;

verus! {

/// One named text field of a record.
pub struct Field {
    pub name: String,
    pub content: String,
}

/// A record: fields in the order in which they were produced.
pub struct Document {
    pub fields: Vec<Field>,
}

impl View for Field {
    type V = (Seq<char>, Seq<char>);

    open spec fn view(&self) -> (Seq<char>, Seq<char>) {
        (self.name@, self.content@)
    }
}

impl View for Document {
    type V = Seq<(Seq<char>, Seq<char>)>;

    open spec fn view(&self) -> Seq<(Seq<char>, Seq<char>)> {
        self.fields@.map_values(|f: Field| f@)
    }
}

/// The name of the single field that a syslog message is stored under.
pub open spec fn syslog_name() -> Seq<char> {
    seq!['s', 'y', 's', 'l', 'o', 'g']
}

/// Relies on std's `String::from_utf8_lossy`: invalid sequences become U+FFFD,
/// so the result depends on the bytes alone.
pub uninterp spec fn utf8_lossy_of(b: Seq<u8>) -> Seq<char>;

/// Relies on `String::from_utf8_lossy`: the text of the bytes, with every
/// invalid sequence replaced; no bytes give no text.
#[verifier::external_body]
fn utf8_lossy(b: &[u8]) -> (r: String)
    ensures
        r@ == utf8_lossy_of(b@),
        b@.len() == 0 ==> r@.len() == 0,
{
    String::from_utf8_lossy(b).into_owned()
}

/// The record made of one syslog message: a single field named `syslog` whose
/// content is the message as it came.
pub fn syslog_record(msg: &str) -> (r: Document)
    ensures
        r@ == seq![(syslog_name(), msg@)],
{
    let name = String::from_str("syslog");
    proof {
        reveal_strlit("syslog");
    }
    assert(name@ =~= syslog_name());
    let field = Field { name, content: msg.to_owned() };
    let fields = vec![field];
    let r = Document { fields };
    assert(r.fields@.len() == 1);
    assert(r@ =~= seq![(syslog_name(), msg@)]);
    r
}

/// The record made of one datagram of which `len` bytes arrived in `buf`: the
/// bytes decoded as UTF-8, each invalid sequence replaced, under `syslog`.
pub fn datagram_record(buf: &[u8], len: usize) -> (r: Document)
    requires
        len <= buf@.len(),
    ensures
        r@ == seq![(syslog_name(), utf8_lossy_of(buf@.subrange(0, len as int)))],
{
    let mut received: Vec<u8> = Vec::new();
    let mut i: usize = 0;
    while i < len
        invariant
            i <= len,
            len <= buf@.len(),
            received@ == buf@.subrange(0, i as int),
        decreases len - i,
    {
        received.push(buf[i]);
        i = i + 1;
        assert(received@ =~= buf@.subrange(0, i as int));
    }
    let text = utf8_lossy(received.as_slice());
    syslog_record(text.as_str())
}

} // verus!
