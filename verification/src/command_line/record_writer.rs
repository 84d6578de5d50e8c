//! A writer of records: each value is followed by a separator.
use vstd::prelude::*;
use vstd::string::*;
use vstd::utf8::encode_utf8;

verus! {

/// The bytes of one record: the value in UTF-8, then the separator.
pub open spec fn record_bytes(value: Seq<char>, separator: Seq<u8>) -> Seq<u8> {
    encode_utf8(value) + separator
}

/// The bytes of a sequence of records, one after the other.
pub open spec fn records_bytes(values: Seq<Seq<char>>, separator: Seq<u8>) -> Seq<u8>
    decreases values.len(),
{
    if values.len() == 0 {
        Seq::empty()
    } else {
        records_bytes(values.drop_last(), separator) + record_bytes(values.last(), separator)
    }
}

/// The texts of a sequence of strings.
pub open spec fn texts(values: Seq<String>) -> Seq<Seq<char>> {
    values.map_values(|v: String| v@)
}

/// Appends bytes to a buffer.
pub fn append_bytes(buffer: &mut Vec<u8>, bytes: &[u8])
    ensures
        final(buffer)@ == old(buffer)@ + bytes@,
{
    let mut i: usize = 0;
    while i < bytes.len()
        invariant
            i <= bytes.len(),
            buffer@ == old(buffer)@ + bytes@.take(i as int),
        decreases bytes.len() - i,
    {
        buffer.push(bytes[i]);
        assert(bytes@.take(i + 1) =~= bytes@.take(i as int).push(bytes@[i as int]));
        i += 1;
    }
    assert(bytes@.take(bytes.len() as int) =~= bytes@);
}

/// A buffer of bytes to which values are written as records: each value is
/// followed by the separator of the writer.
pub struct RecordWriter<'a> {
    /// The bytes written so far.
    pub writer: Vec<u8>,
    /// What is written after each value.
    pub separator: &'a [u8],
}

impl<'a> RecordWriter<'a> {
    /// Makes a writer that goes on after the bytes of `writer`.
    pub fn new(writer: Vec<u8>, separator: &'a [u8]) -> (w: Self)
        ensures
            w.writer == writer,
            w.separator == separator,
    {
        RecordWriter { writer, separator }
    }

    /// Writes one value, followed by the separator.
    pub fn write(&mut self, value: &str)
        ensures
            final(self).writer@ == old(self).writer@ + record_bytes(value@, old(self).separator@),
            final(self).separator == old(self).separator,
    {
        append_bytes(&mut self.writer, value.as_bytes());
        append_bytes(&mut self.writer, self.separator);
        assert(self.writer@ =~= old(self).writer@ + record_bytes(value@, old(self).separator@));
    }

    /// Writes each of the values, in turn, each followed by the separator.
    pub fn write_all(&mut self, values: &[String])
        ensures
            final(self).writer@ == old(self).writer@ + records_bytes(
                texts(values@),
                old(self).separator@,
            ),
            final(self).separator == old(self).separator,
    {
        let mut i: usize = 0;
        assert(texts(values@.take(0)) =~= Seq::<Seq<char>>::empty());
        assert(self.writer@ =~= old(self).writer@ + Seq::<u8>::empty());
        while i < values.len()
            invariant
                i <= values.len(),
                self.separator == old(self).separator,
                self.writer@ == old(self).writer@ + records_bytes(
                    texts(values@.take(i as int)),
                    self.separator@,
                ),
            decreases values.len() - i,
        {
            let ghost before = self.writer@;
            self.write(values[i].as_str());
            proof {
                let now = texts(values@.take(i + 1));
                let was = texts(values@.take(i as int));
                assert(now.drop_last() =~= was);
                assert(now.last() == values[i as int]@);
                assert(self.writer@ =~= old(self).writer@ + records_bytes(now, self.separator@));
            }
            i += 1;
        }
        assert(values@.take(values.len() as int) =~= values@);
    }

    /// Returns the bytes written.
    pub fn writer(self) -> (bytes: Vec<u8>)
        ensures
            bytes == self.writer,
    {
        self.writer
    }
}

} // verus!
