//! The ATA (PIO, primary bus, master drive) sector transfer protocol: the register values
//! that select a sector, how the 512 bytes of a sector travel as 256 16-bit words, and when
//! to stop waiting on the status register.

use vstd::prelude::*;

verus! {

/// Data register (16 bits).
pub const PORT_DATA: u16 = 0x1F0;
/// Sector count register.
pub const PORT_SECTOR_COUNT: u16 = 0x1F2;
/// LBA bits 0..8.
pub const PORT_LBA_LOW: u16 = 0x1F3;
/// LBA bits 8..16.
pub const PORT_LBA_MID: u16 = 0x1F4;
/// LBA bits 16..24.
pub const PORT_LBA_HIGH: u16 = 0x1F5;
/// Drive select and LBA bits 24..28.
pub const PORT_DRIVE_HEAD: u16 = 0x1F6;
/// Command (write) and status (read) register.
pub const PORT_COMMAND: u16 = 0x1F7;

/// READ SECTORS command.
pub const CMD_READ: u8 = 0x20;
/// WRITE SECTORS command.
pub const CMD_WRITE: u8 = 0x30;
/// CACHE FLUSH command.
pub const CMD_CACHE_FLUSH: u8 = 0xE7;

/// Status bit: the drive has data to transfer, or wants data.
pub const STATUS_DRQ: u8 = 0x08;
/// Status bit: the drive is busy.
pub const STATUS_BSY: u8 = 0x80;

/// Status polls after which a wait gives up.
pub const POLL_LIMIT: u32 = 100_000;

/// The values written to select `sector` for a one-sector transfer: the drive/head register
/// (master drive, LBA mode, LBA bits 24..28), the sector count, and LBA bits 0..8, 8..16 and
/// 16..24.
#[derive(Clone, Copy, PartialEq, Eq, Debug)]
pub struct SectorSelect {
    pub drive_head: u8,
    pub count: u8,
    pub lba_low: u8,
    pub lba_mid: u8,
    pub lba_high: u8,
}

/// The registers that select `sector`.
pub fn select_sector(sector: u32) -> (r: SectorSelect)
    ensures
        r.drive_head == 0xE0 + (sector / 0x100_0000) % 16,
        r.count == 1,
        r.lba_low == sector % 0x100,
        r.lba_mid == (sector / 0x100) % 0x100,
        r.lba_high == (sector / 0x1_0000) % 0x100,
{
    let drive_head = 0xE0u8 | ((sector >> 24u32) as u8 & 0x0F);
    let lba_low = sector as u8;
    let lba_mid = (sector >> 8u32) as u8;
    let lba_high = (sector >> 16u32) as u8;
    assert(drive_head == 0xE0 + (sector / 0x100_0000) % 16) by (bit_vector)
        requires drive_head == 0xE0u8 | ((sector >> 24u32) as u8 & 0x0F);
    assert(lba_low == sector % 0x100) by (bit_vector)
        requires lba_low == sector as u8;
    assert(lba_mid == (sector / 0x100) % 0x100) by (bit_vector)
        requires lba_mid == (sector >> 8u32) as u8;
    assert(lba_high == (sector / 0x1_0000) % 0x100) by (bit_vector)
        requires lba_high == (sector >> 16u32) as u8;
    SectorSelect { drive_head, count: 1, lba_low, lba_mid, lba_high }
}

/// The word sent for bytes `lo` and `hi` of a sector: little-endian.
pub open spec fn word_of(lo: u8, hi: u8) -> u16 {
    (lo + 256 * hi) as u16
}

/// The 256 words that carry a sector, in order.
pub fn sector_to_words(buf: &[u8; 512]) -> (words: [u16; 256])
    ensures
        forall|i: int| 0 <= i < 256 ==> #[trigger] words@[i] == word_of(buf@[2 * i], buf@[2 * i + 1]),
{
    let mut words = [0u16; 256];
    let mut i: usize = 0;
    while i < 256
        invariant
            i <= 256,
            forall|k: int| 0 <= k < i ==> #[trigger] words@[k] == word_of(buf@[2 * k], buf@[2 * k + 1]),
        decreases 256 - i,
    {
        let lo = buf[i * 2];
        let hi = buf[i * 2 + 1];
        let w = lo as u16 | ((hi as u16) << 8u16);
        assert(w == word_of(lo, hi)) by (bit_vector)
            requires w == lo as u16 | ((hi as u16) << 8u16);
        words[i] = w;
        i = i + 1;
    }
    words
}

/// The sector that 256 received words carry: each word's low byte, then its high byte.
pub fn words_to_sector(words: &[u16; 256]) -> (buf: [u8; 512])
    ensures
        forall|i: int| 0 <= i < 256 ==> #[trigger] buf@[2 * i] == words@[i] % 256 && buf@[2 * i + 1] == words@[i] / 256,
{
    let mut buf = [0u8; 512];
    let mut i: usize = 0;
    while i < 256
        invariant
            i <= 256,
            forall|k: int| 0 <= k < i ==> #[trigger] buf@[2 * k] == words@[k] % 256 && buf@[2 * k + 1] == words@[k] / 256,
        decreases 256 - i,
    {
        let w = words[i];
        let lo = w as u8;
        let hi = (w >> 8u16) as u8;
        assert(lo == w % 256 && hi == w / 256) by (bit_vector)
            requires lo == w as u8, hi == (w >> 8u16) as u8;
        buf[i * 2] = lo;
        buf[i * 2 + 1] = hi;
        i = i + 1;
    }
    buf
}

/// A sector sent as words and received back is the same sector.
pub proof fn lemma_words_roundtrip(buf: Seq<u8>, words: Seq<u16>, back: Seq<u8>)
    requires
        buf.len() == 512,
        back.len() == 512,
        forall|i: int| 0 <= i < 256 ==> #[trigger] words[i] == word_of(buf[2 * i], buf[2 * i + 1]),
        forall|i: int| 0 <= i < 256 ==> #[trigger] back[2 * i] == words[i] % 256 && back[2 * i + 1] == words[i] / 256,
    ensures
        back == buf,
{
    assert forall|k: int| 0 <= k < 512 implies back[k] == buf[k] by {
        let i = k / 2;
        assert(words[i] == word_of(buf[2 * i], buf[2 * i + 1]));
        assert(back[2 * i] == words[i] % 256);
        if k % 2 == 0 {
            assert(k == 2 * i);
        } else {
            assert(k == 2 * i + 1);
        }
    }
    assert(back =~= buf);
}

/// What a wait on the status register does after a poll.
#[derive(Clone, Copy, PartialEq, Eq, Debug)]
pub enum Poll {
    /// The drive is ready: stop waiting.
    Ready,
    /// The limit of polls is passed: stop waiting all the same.
    GaveUp,
    /// Poll again; the count of polls so far.
    Again(u32),
}

/// One round of a bounded wait, after `tries` polls that failed and a poll whose outcome is
/// `ready`: stop when ready, else count the poll and give up once the count passes the limit.
pub fn poll_step(tries: u32, ready: bool) -> (p: Poll)
    requires
        tries <= POLL_LIMIT,
    ensures
        p == if ready {
            Poll::Ready
        } else if tries + 1 > POLL_LIMIT {
            Poll::GaveUp
        } else {
            Poll::Again((tries + 1) as u32)
        },
{
    if ready {
        return Poll::Ready;
    }
    let t = tries + 1;
    if t > POLL_LIMIT {
        Poll::GaveUp
    } else {
        Poll::Again(t)
    }
}

/// Whether a status says the drive is ready to transfer data.
pub fn data_ready(status: u8) -> (r: bool)
    ensures
        r == (status & STATUS_DRQ != 0),
{
    status & STATUS_DRQ != 0
}

/// Whether a status says the drive is no longer busy.
pub fn not_busy(status: u8) -> (r: bool)
    ensures
        r == (status & STATUS_BSY == 0),
{
    status & STATUS_BSY == 0
}

} // verus!
