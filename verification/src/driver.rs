//! Upload driver: the sequence of exchanges that flashes a firmware image,
//! as a state machine the caller pumps.  The caller performs each exchange
//! over the transport and records its outcome; the driver decides what
//! comes next and stops at the first failure.

use vstd::prelude::*;
use vstd::arithmetic::div_mod::lemma_div_is_ordered;
use vstd::arithmetic::div_mod::lemma_div_nonincreasing;
use vstd::arithmetic::div_mod::lemma_fundamental_div_mod;
use vstd::arithmetic::div_mod::lemma_mod_bound;
use vstd::arithmetic::mul::lemma_mul_inequality;
use crate::header::Header;
use crate::header::spec_header_from_slice;
use crate::protocol::Error;

verus! {

/// Byte length of one firmware page: the image is written in page-sized
/// send exchanges, the final page possibly shorter.
pub const PAGE_SIZE: usize = 0x4000;

/// Fixed device address probed by the opening status exchange.
pub const STATUS_PROBE_ADDRESS: u32 = 0x15;

/// Fixed byte length of the status probe's response payload.
pub const STATUS_PROBE_SIZE: u32 = 0x60;

/// One exchange of an upload, as the driver plans it.  Page payloads are
/// given as a range of the image rather than copied bytes.
#[derive(Debug, PartialEq, Eq, Structural, Clone, Copy)]
pub enum Exchange {
    /// Receive-class probe confirming the device is ready.
    StatusProbe { tag: u32, address: u32, size: u32 },
    /// Send-class write of `image[offset .. offset + len]` at `address`.
    PageWrite { tag: u32, address: u32, offset: usize, len: usize },
    /// Send-class signal, with empty payload, to boot the uploaded image
    /// at `address`.
    Execute { tag: u32, address: u32 },
}

/// The sequence tag an exchange carries.
pub open spec fn spec_exchange_tag(e: Exchange) -> u32 {
    match e {
        Exchange::StatusProbe { tag, address, size } => tag,
        Exchange::PageWrite { tag, address, offset, len } => tag,
        Exchange::Execute { tag, address } => tag,
    }
}

/// Number of pages covering an image of `len` bytes: the final page may
/// be shorter, so this is the count of page-sized steps rounded up.
pub open spec fn spec_page_count(len: int) -> int {
    if len <= 0 {
        0
    } else {
        (len - 1) / (PAGE_SIZE as int) + 1
    }
}

/// The `i`-th page write of an upload: tags continue after the probe's
/// tag 1, addresses climb from the header's base address in page-sized
/// strides, and the payload is the matching stretch of the image.
pub open spec fn spec_page_exchange(h: Header, image_len: int, i: int) -> Exchange {
    Exchange::PageWrite {
        tag: (2 + i) as u32,
        address: (h.base_address + PAGE_SIZE * i) as u32,
        offset: (PAGE_SIZE * i) as usize,
        len: if PAGE_SIZE * (i + 1) <= image_len {
            PAGE_SIZE as usize
        } else {
            (image_len - PAGE_SIZE * i) as usize
        },
    }
}

/// The complete plan of an upload: one status probe, one page write per
/// page of the image, and one execute jumping to the entry point.
pub open spec fn spec_upload_plan(h: Header, image_len: int) -> Seq<Exchange> {
    seq![Exchange::StatusProbe { tag: 1, address: STATUS_PROBE_ADDRESS, size: STATUS_PROBE_SIZE }]
        + Seq::new(
        spec_page_count(image_len) as nat,
        |i: int| spec_page_exchange(h, image_len, i),
    ) + seq![
        Exchange::Execute {
            tag: (2 + spec_page_count(image_len)) as u32,
            address: h.entry_point,
        },
    ]
}

/// A firmware image is valid when its header decodes and the header's
/// declared size equals the image's actual byte length.
pub open spec fn spec_valid_image(image: Seq<u8>) -> bool {
    match spec_header_from_slice(image) {
        Some(h) => h.size == image.len(),
        None => false,
    }
}

/// The pages of a valid image must fit below the top of the 32-bit
/// address space when laid out from the header's base address.
pub open spec fn spec_addresses_fit(image: Seq<u8>) -> bool {
    match spec_header_from_slice(image) {
        Some(h) => h.size == image.len() ==> h.base_address + image.len() <= u32::MAX + 1,
        None => true,
    }
}

/// Bounds of the page partition: pages start strictly inside the image
/// and together they cover it.
proof fn lemma_page_bounds(len: int)
    requires
        1 <= len,
    ensures
        PAGE_SIZE * (spec_page_count(len) - 1) <= len - 1,
        len <= PAGE_SIZE * spec_page_count(len),
        spec_page_count(len) <= len,
{
    let k = PAGE_SIZE as int;
    lemma_fundamental_div_mod(len - 1, k);
    lemma_mod_bound(len - 1, k);
    lemma_div_nonincreasing(len - 1, k);
}

/// Page `i` of an upload covers exactly the image bytes from
/// `i * PAGE_SIZE` to the next page boundary (the image's end for the
/// final page), and writes them the same distance past the base address.
pub open spec fn spec_page_covers(h: Header, image_len: int, i: int) -> bool {
    match spec_page_exchange(h, image_len, i) {
        Exchange::PageWrite { tag, address, offset, len } => {
            &&& offset == PAGE_SIZE * i
            &&& 0 < len <= PAGE_SIZE
            &&& offset + len == if i + 1 < spec_page_count(image_len) {
                PAGE_SIZE * (i + 1)
            } else {
                image_len
            }
            &&& address == h.base_address + offset
        },
        _ => false,
    }
}

/// The page writes of an upload partition the image: consecutive pages
/// at strictly increasing, page-sized strides from the start of the
/// image and from the base address, every page full except possibly the
/// last, and the last ending exactly at the image's end.
pub proof fn lemma_pages_partition_image(h: Header, image_len: int)
    requires
        1 <= image_len <= u32::MAX,
        h.base_address + image_len <= u32::MAX + 1,
    ensures
        forall|i: int|
            0 <= i < spec_page_count(image_len) ==> #[trigger] spec_page_covers(h, image_len, i),
{
    let k = PAGE_SIZE as int;
    let n = spec_page_count(image_len);
    lemma_page_bounds(image_len);
    assert forall|i: int| 0 <= i < n implies #[trigger] spec_page_covers(h, image_len, i) by {
        lemma_mul_inequality(i, n - 1, k);
        assert(k * i <= image_len - 1);
        if i + 1 < n {
            lemma_mul_inequality(i + 1, n - 1, k);
            assert(k * (i + 1) <= image_len - 1);
        }
    }
}

/// What the driver does next.
#[derive(Debug, PartialEq, Eq, Structural, Clone, Copy)]
pub enum UploadStep {
    /// Perform this exchange and record its outcome.
    Perform(Exchange),
    /// Every exchange succeeded: the upload is complete.
    Done,
    /// An exchange failed; the upload stopped there for good.
    Aborted(Error),
}

/// The state of one upload: the planned exchanges, how many have
/// succeeded, and the failure that stopped the upload, if any.
pub struct Upload {
    header: Header,
    image_len: usize,
    exchanges: Vec<Exchange>,
    pos: usize,
    failed: Option<Error>,
}

impl Upload {
    /// The planned exchanges, in order.
    pub closed spec fn plan(&self) -> Seq<Exchange> {
        self.exchanges@
    }

    /// How many exchanges have completed successfully.
    pub closed spec fn position(&self) -> int {
        self.pos as int
    }

    /// The error that aborted the upload, if one has.
    pub closed spec fn failure(&self) -> Option<Error> {
        self.failed
    }

    /// The image header the upload was planned from.
    pub closed spec fn image_header(&self) -> Header {
        self.header
    }

    /// The byte length of the image the upload was planned from.
    pub closed spec fn image_size(&self) -> int {
        self.image_len as int
    }

    /// The plan is exactly the upload plan of the header, the position
    /// stays within it, and every page lies within the image and the
    /// 32-bit address space.
    pub closed spec fn wf(&self) -> bool {
        &&& self.exchanges@ == spec_upload_plan(self.header, self.image_len as int)
        &&& self.pos <= self.exchanges@.len()
        &&& self.header.size == self.image_len
        &&& self.header.base_address + self.image_len <= u32::MAX + 1
    }

    /// Plans an upload of `image`: fails with `InvalidImage`, before any
    /// device interaction, unless the image's header decodes and declares
    /// exactly the image's length.
    pub fn new(image: &[u8]) -> (r: Result<Upload, Error>)
        requires
            spec_addresses_fit(image@),
        ensures
            match r {
                Ok(up) => {
                    &&& spec_valid_image(image@)
                    &&& up.wf()
                    &&& Some(up.image_header()) == spec_header_from_slice(image@)
                    &&& up.image_size() == image@.len()
                    &&& up.plan() == spec_upload_plan(up.image_header(), image@.len() as int)
                    &&& up.position() == 0
                    &&& up.failure() is None
                },
                Err(e) => e == Error::InvalidImage && !spec_valid_image(image@),
            },
    {
        let header = match Header::from_slice(image) {
            Some(h) => h,
            None => { return Err(Error::InvalidImage); },
        };
        if image.len() != header.size as usize {
            return Err(Error::InvalidImage);
        }
        let len: usize = image.len();
        proof {
            if len > 0 {
                lemma_page_bounds(len as int);
            }
        }
        let page_count: usize = if len == 0 {
            0
        } else {
            (len - 1) / PAGE_SIZE + 1
        };
        proof {
            if len > 0 {
                lemma_div_is_ordered(len - 1, 0xffff_fffe, PAGE_SIZE as int);
                assert(0xffff_fffe as int / (PAGE_SIZE as int) == 262143);
            }
            assert(page_count <= 262144);
        }
        let mut exchanges: Vec<Exchange> = Vec::new();
        exchanges.push(
            Exchange::StatusProbe {
                tag: 1,
                address: STATUS_PROBE_ADDRESS,
                size: STATUS_PROBE_SIZE,
            },
        );
        let mut i: usize = 0;
        while i < page_count
            invariant
                i <= page_count,
                page_count as int == spec_page_count(len as int),
                page_count <= 262144,
                len == image@.len(),
                len == header.size,
                header.base_address + len <= u32::MAX + 1,
                exchanges@.len() == 1 + i,
                exchanges@[0] == (Exchange::StatusProbe {
                    tag: 1u32,
                    address: STATUS_PROBE_ADDRESS,
                    size: STATUS_PROBE_SIZE,
                }),
                forall|j: int|
                    0 <= j < i ==> exchanges@[j + 1] == spec_page_exchange(header, len as int, j),
            decreases page_count - i,
        {
            proof {
                lemma_page_bounds(len as int);
                lemma_mul_inequality(
                    i as int,
                    spec_page_count(len as int) - 1,
                    PAGE_SIZE as int,
                );
                assert(PAGE_SIZE * (i as int) <= len - 1);
            }
            let offset = i * PAGE_SIZE;
            let remaining = len - offset;
            let chunk = if remaining > PAGE_SIZE {
                PAGE_SIZE
            } else {
                remaining
            };
            let address = header.base_address + (offset as u32);
            let tag = 2 + (i as u32);
            exchanges.push(Exchange::PageWrite { tag, address, offset, len: chunk });
            proof {
                assert(exchanges@.last() == spec_page_exchange(header, len as int, i as int));
            }
            i = i + 1;
        }
        let final_tag = 2 + (page_count as u32);
        exchanges.push(Exchange::Execute { tag: final_tag, address: header.entry_point });
        proof {
            let plan = spec_upload_plan(header, len as int);
            assert(plan.len() == 2 + page_count);
            assert forall|j: int| 0 <= j < exchanges@.len() implies exchanges@[j] == plan[j] by {
                if j == 0 {
                } else if j <= page_count as int {
                    assert(exchanges@[j] == spec_page_exchange(header, len as int, j - 1));
                    assert(plan[j] == spec_page_exchange(header, len as int, j - 1));
                } else {
                    assert(plan[j] == (Exchange::Execute {
                        tag: (2 + spec_page_count(len as int)) as u32,
                        address: header.entry_point,
                    }));
                }
            }
            assert(exchanges@ =~= plan);
        }
        Ok(Upload { header, image_len: len, exchanges, pos: 0, failed: None })
    }

    /// What the driver asks for next: the exchange at the current
    /// position, completion once past the last exchange, or the abort
    /// that ended the upload.
    pub open spec fn spec_step(&self) -> UploadStep {
        match self.failure() {
            Some(e) => UploadStep::Aborted(e),
            None => if self.position() == self.plan().len() {
                UploadStep::Done
            } else {
                UploadStep::Perform(self.plan()[self.position()])
            },
        }
    }

    /// Returns the driver's next step.
    pub fn step(&self) -> (r: UploadStep)
        requires
            self.wf(),
        ensures
            r == self.spec_step(),
    {
        match self.failed {
            Some(e) => UploadStep::Aborted(e),
            None => if self.pos == self.exchanges.len() {
                UploadStep::Done
            } else {
                UploadStep::Perform(self.exchanges[self.pos])
            },
        }
    }

    /// Records the outcome of the exchange just performed: on success the
    /// driver moves to the next exchange; on failure it aborts for good,
    /// holding the error.  No retry, no skipping: the position never
    /// advances past a failure.
    pub fn record(&mut self, outcome: Result<(), Error>)
        requires
            old(self).wf(),
            old(self).spec_step() is Perform,
        ensures
            final(self).wf(),
            final(self).plan() == old(self).plan(),
            final(self).image_header() == old(self).image_header(),
            final(self).image_size() == old(self).image_size(),
            match outcome {
                Ok(_) => final(self).position() == old(self).position() + 1
                    && final(self).failure() is None,
                Err(e) => final(self).position() == old(self).position() && final(self).failure()
                    == Some(e),
            },
    {
        match outcome {
            Ok(_) => {
                self.pos = self.pos + 1;
            },
            Err(e) => {
                self.failed = Some(e);
            },
        }
    }
}

/// Tags are strictly increasing by exactly one across an entire upload,
/// whatever the number of pages: the `i`-th exchange of the plan carries
/// tag `i + 1`, the probe opening at tag 1.
pub proof fn lemma_tags_increase_by_one(h: Header, image_len: int)
    requires
        0 <= image_len <= u32::MAX,
    ensures
        forall|i: int|
            0 <= i < spec_upload_plan(h, image_len).len() ==> spec_exchange_tag(
                #[trigger] spec_upload_plan(h, image_len)[i],
            ) == i + 1,
{
    let plan = spec_upload_plan(h, image_len);
    let n = spec_page_count(image_len);
    if image_len > 0 {
        lemma_div_is_ordered(image_len - 1, 0xffff_fffe, PAGE_SIZE as int);
        assert(0xffff_fffe as int / (PAGE_SIZE as int) == 262143);
    }
    assert(n <= 262144);
    assert forall|i: int| 0 <= i < plan.len() implies spec_exchange_tag(#[trigger] plan[i]) == i
        + 1 by {
        if i == 0 {
        } else if i <= n {
            assert(plan[i] == spec_page_exchange(h, image_len, i - 1));
        } else {
            assert(plan[i] == (Exchange::Execute {
                tag: (2 + n) as u32,
                address: h.entry_point,
            }));
        }
    }
}

} // verus!
