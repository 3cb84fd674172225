//! OTA (Over-The-Air) firmware updates: progress and what makes one fail.

use crate::error::Error;
use crate::text::{parse_decimal, parsed_decimal};
use vstd::prelude::*;

verus! {

/// OTA status: idle (no operation in progress)
pub const OTA_STATUS_IDLE: u8 = 0;

/// OTA status: downloading firmware from remote URL
pub const OTA_STATUS_DOWNLOADING: u8 = 1;

/// OTA status: writing firmware to flash
pub const OTA_STATUS_FLASHING: u8 = 2;

/// OTA status: complete, about to reboot
pub const OTA_STATUS_DONE: u8 = 3;

/// OTA status: error occurred
pub const OTA_STATUS_ERROR: u8 = 255;

/// Whether an update is running, for the status LEDs.
#[derive(Debug, Clone, Copy, PartialEq, Eq, Structural)]
pub enum OtaState {
    Idle,
    Updating,
}

/// Information about the currently running firmware.
#[derive(Debug, Clone, Copy)]
pub struct FirmwareInfo {
    pub version: &'static str,
    pub variant: &'static str,
}

/// Return metadata about the running firmware.
pub fn firmware_info(version: &'static str, variant: &'static str) -> (r: FirmwareInfo)
    ensures
        r.version@ == version@,
        r.variant@ == variant@,
{
    FirmwareInfo { version, variant }
}

/// Progress of an update: how much has been written.
#[derive(Debug, Clone, Copy, PartialEq, Eq, Structural)]
pub struct OtaProgress {
    pub written: usize,
    pub total_size: usize,
    /// Percentage at the last report
    pub last_pct: u8,
}

/// The percentage that has been written, in 8 bits; zero without a size.
pub open spec fn percent(written: int, total_size: int) -> int {
    if total_size > 0 {
        (written * 100 / total_size) % 256
    } else {
        0
    }
}

/// The percentage of a download: at most 100.
pub open spec fn capped_percent(downloaded: int, content_length: int) -> int {
    let pct = downloaded * 100 / content_length;
    if pct < 100 {
        pct
    } else {
        100
    }
}

impl OtaProgress {
    /// An update of the given size.
    pub fn new(total_size: usize) -> (r: Self)
        ensures
            r.written == 0,
            r.total_size == total_size,
            r.last_pct == 0,
    {
        OtaProgress { written: 0, total_size, last_pct: 0 }
    }

    /// Some bytes were written; returns the percentage at each 10% increment.
    pub fn record(&mut self, n: usize) -> (r: Option<u8>)
        requires
            old(self).written + n <= usize::MAX,
        ensures
            final(self).written == old(self).written + n,
            final(self).total_size == old(self).total_size,
            ({
                let pct = percent(final(self).written as int, old(self).total_size as int);
                if pct / 10 > old(self).last_pct / 10 {
                    r == Some(pct as u8) && final(self).last_pct == pct
                } else {
                    r is None && final(self).last_pct == old(self).last_pct
                }
            }),
    {
        self.written = self.written + n;
        let pct: u8 = if self.total_size > 0 {
            let whole: u128 = self.written as u128 * 100 / self.total_size as u128;
            (whole % 256) as u8
        } else {
            0
        };
        if pct / 10 > self.last_pct / 10 {
            self.last_pct = pct;
            Some(pct)
        } else {
            None
        }
    }

    /// The end of the data: an update without any data fails.
    pub fn finish(&self) -> (r: Result<usize, Error>)
        ensures
            if self.written == 0 {
                r == Err::<usize, Error>(Error::OtaZeroBytes)
            } else {
                r == Ok::<usize, Error>(self.written)
            },
    {
        if self.written == 0 {
            Err(Error::OtaZeroBytes)
        } else {
            Ok(self.written)
        }
    }
}

/// The size of a firmware download, from the status and the `Content-Length`
/// header of the response.
pub open spec fn download_size(status: u16, content_length: Option<Seq<u8>>) -> Result<
    nat,
    Error,
> {
    if status != 200 {
        Err(Error::OtaHttpStatus(status))
    } else {
        match content_length {
            Some(text) => match parsed_decimal(text) {
                Some(n) => if 0 < n <= usize::MAX {
                    Ok(n)
                } else {
                    Err(Error::OtaMissingContentLength)
                },
                None => Err(Error::OtaMissingContentLength),
            },
            None => Err(Error::OtaMissingContentLength),
        }
    }
}

/// Check the response to a firmware download; returns the size.
pub fn check_download(status: u16, content_length: Option<&str>) -> (r: Result<usize, Error>)
    ensures
        ({
            let bytes = match content_length {
                Some(text) => Some(vstd::utf8::encode_utf8(text@)),
                None => None,
            };
            match r {
                Ok(n) => download_size(status, bytes) == Ok::<nat, Error>(n as nat),
                Err(e) => download_size(status, bytes) == Err::<nat, Error>(e),
            }
        }),
{
    if status != 200 {
        return Err(Error::OtaHttpStatus(status));
    }
    match content_length {
        Some(text) => match parse_decimal(text.as_bytes(), usize::MAX as u64) {
            Some(n) => if n > 0 {
                Ok(n as usize)
            } else {
                Err(Error::OtaMissingContentLength)
            },
            None => Err(Error::OtaMissingContentLength),
        },
        None => Err(Error::OtaMissingContentLength),
    }
}

/// The progress to report for a download.
pub fn download_percent(downloaded: usize, content_length: usize) -> (r: u8)
    requires
        content_length > 0,
    ensures
        r == capped_percent(downloaded as int, content_length as int),
        r <= 100,
{
    let whole: u128 = downloaded as u128 * 100 / content_length as u128;
    if whole < 100 {
        whole as u8
    } else {
        100
    }
}

/// A download is reported complete once all of it has come, and not before.
pub proof fn law_progress_completes(downloaded: int, content_length: int)
    requires
        0 <= downloaded,
        0 < content_length,
    ensures
        capped_percent(downloaded, content_length) == 100 <==> downloaded >= content_length,
{
    assert(downloaded * 100 / content_length >= 100 <==> downloaded >= content_length)
        by (nonlinear_arith)
        requires
            0 <= downloaded,
            0 < content_length,
    ;
}

/// The percentage is what part of a hundred has been written, rounded down; all of it
/// is a hundred.
pub proof fn law_percentage(written: int, total_size: int)
    requires
        0 <= written <= total_size,
        0 < total_size,
    ensures
        0 <= percent(written, total_size) <= 100,
        percent(written, total_size) * total_size <= written * 100 < (percent(written, total_size)
            + 1) * total_size,
        percent(written, total_size) == 100 <==> written == total_size,
        capped_percent(written, total_size) == percent(written, total_size),
{
    let pct = written * 100 / total_size;
    vstd::arithmetic::div_mod::lemma_fundamental_div_mod(written * 100, total_size);
    vstd::arithmetic::div_mod::lemma_mod_bound(written * 100, total_size);
    vstd::arithmetic::div_mod::lemma_div_pos_is_pos(written * 100, total_size);
    assert(pct * total_size <= written * 100 < (pct + 1) * total_size) by (nonlinear_arith)
        requires
            written * 100 == total_size * pct + (written * 100) % total_size,
            0 <= (written * 100) % total_size < total_size,
    ;
    assert(pct <= 100) by (nonlinear_arith)
        requires
            pct * total_size <= written * 100,
            written <= total_size,
            0 < total_size,
    ;
    assert(pct % 256 == pct);
    if written == total_size {
        assert(pct == 100) by (nonlinear_arith)
            requires
                written * 100 < (pct + 1) * total_size,
                pct <= 100,
                written == total_size,
                0 < total_size,
        ;
    } else {
        assert(pct < 100) by (nonlinear_arith)
            requires
                pct * total_size <= written * 100,
                written < total_size,
                0 < total_size,
        ;
    }
}

/// Without a known size nothing is reported, and a download that is longer than was
/// announced stays at a hundred.
pub proof fn law_percentage_at_the_ends(downloaded: int, content_length: int)
    requires
        0 < content_length <= downloaded,
    ensures
        percent(downloaded, 0) == 0,
        capped_percent(downloaded, content_length) == 100,
{
    law_progress_completes(downloaded, content_length);
}

/// A download is taken with the status 200 and a length in decimal that is not zero;
/// any other status is reported, and so is a length that is missing or unreadable.
pub proof fn law_downloads_are_checked(status: u16, text: Seq<u8>)
    ensures
        status != 200 ==> download_size(status, Some(text)) == Err::<nat, Error>(
            Error::OtaHttpStatus(status),
        ) && download_size(status, None) == Err::<nat, Error>(Error::OtaHttpStatus(status)),
        download_size(200, None) == Err::<nat, Error>(Error::OtaMissingContentLength),
        parsed_decimal(text) matches Some(n) ==> (0 < n <= usize::MAX ==> download_size(
            200,
            Some(text),
        ) == Ok::<nat, Error>(n)),
        parsed_decimal(text) is None || parsed_decimal(text) == Some(0nat) ==> download_size(
            200,
            Some(text),
        ) == Err::<nat, Error>(Error::OtaMissingContentLength),
{
}

} // verus!
