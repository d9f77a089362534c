//! The entries that allocate, free, write and read buffers, and the close.

use super::device::{device_refusal, found_model, open_device, seq_of, AckDevice, DeviceModel};
use super::reason::{first, unless, Reason, Refusal};
use super::{split_buffer_handle, ACK_ERR_LIVE_BUFFERS, ACK_ERR_NULL, ACK_ERR_SHAPE, ACK_ERR_SIZE};
use crate::faults::Fault;
use vstd::prelude::*;

verus! {

/// Refuse an allocation. The caller gets no handle, and these words.
pub open spec fn allocation_refusal(dev: u64, found: Option<DeviceModel>, bytes: u64) -> Option<
    Refusal,
> {
    first(
        unless(bytes != 0, ACK_ERR_SIZE, Reason::ZeroBytes),
        first(
            device_refusal(dev, found),
            unless(found->0.next_buffer != u32::MAX, ACK_ERR_SIZE, Reason::NoBufferHandle),
        ),
    )
}

/// Whether a device-local buffer of `bytes` may be allocated: then the device
/// allocates it.
pub fn ack_buffer_alloc(dev: u64, found: Option<&AckDevice>, bytes: u64) -> (r: Result<
    (),
    Refusal,
>)
    ensures
        match allocation_refusal(dev, found_model(found), bytes) {
            Some(refusal) => r is Err && r->Err_0 == refusal,
            None => r is Ok && found_model(found)->0.next_buffer < u32::MAX,
        },
{
    if bytes == 0 {
        return Err(Refusal { code: ACK_ERR_SIZE, reason: Reason::ZeroBytes });
    }
    match open_device(dev, found) {
        Ok(d) => if d.next_sequence() == u32::MAX {
            Err(Refusal { code: ACK_ERR_SIZE, reason: Reason::NoBufferHandle })
        } else {
            Ok(())
        },
        Err(refusal) => Err(refusal),
    }
}

/// The buffer that a free consumes, by sequence number.
pub fn ack_buffer_free(dev: u64, found: Option<&AckDevice>, buf: u64) -> (r: Result<u32, Refusal>)
    ensures
        match first(
            device_refusal(dev, found_model(found)),
            found_model(found)->0.handle_refusal(buf),
        ) {
            Some(refusal) => r is Err && r->Err_0 == refusal,
            None => r is Ok && r->Ok_0 == seq_of(buf)
                && found_model(found)->0.buffers.contains_key(r->Ok_0),
        },
{
    match open_device(dev, found) {
        Ok(d) => match d.buffer_of(buf) {
            Ok(_) => Ok(split_buffer_handle(buf).1),
            Err(refusal) => Err(refusal),
        },
        Err(refusal) => Err(refusal),
    }
}

/// Refuse a transfer of `len` host bytes, or of none, and name it by `reason`
/// where it is not the buffer's size.
pub open spec fn transfer_refusal(
    dev: u64,
    found: Option<DeviceModel>,
    buf: u64,
    len: Option<usize>,
    reason: Reason,
) -> Option<Refusal> {
    first(
        unless(len is Some, ACK_ERR_NULL, Reason::Unnamed),
        first(
            device_refusal(dev, found),
            first(
                found->0.handle_refusal(buf),
                unless(len->0 == found->0.buffer(buf).bytes, ACK_ERR_SIZE, reason),
            ),
        ),
    )
}

/// The buffer that `len` host bytes are written into, by sequence number: the
/// whole of it or nothing.
pub fn ack_upload(dev: u64, found: Option<&AckDevice>, buf: u64, len: Option<usize>) -> (r: Result<
    u32,
    Refusal,
>)
    ensures
        match transfer_refusal(
            dev,
            found_model(found),
            buf,
            len,
            Reason::UploadSize { len: len->0, bytes: found_model(found)->0.buffer(buf).bytes },
        ) {
            Some(refusal) => r is Err && r->Err_0 == refusal,
            None => r is Ok && r->Ok_0 == seq_of(buf)
                && found_model(found)->0.buffers.contains_key(r->Ok_0),
        },
{
    let len: usize = match len {
        None => {
            return Err(Refusal { code: ACK_ERR_NULL, reason: Reason::Unnamed });
        },
        Some(n) => n,
    };
    match open_device(dev, found) {
        Ok(d) => match d.buffer_of(buf) {
            Ok(b) => if len as u64 != b.size() {
                Err(
                    Refusal {
                        code: ACK_ERR_SIZE,
                        reason: Reason::UploadSize { len, bytes: b.size() },
                    },
                )
            } else {
                Ok(split_buffer_handle(buf).1)
            },
            Err(refusal) => Err(refusal),
        },
        Err(refusal) => Err(refusal),
    }
}

/// The buffer that `len` host bytes are read from, by sequence number: the whole
/// of it or nothing.
pub fn ack_download(dev: u64, found: Option<&AckDevice>, buf: u64, len: Option<usize>) -> (r:
    Result<u32, Refusal>)
    ensures
        match transfer_refusal(
            dev,
            found_model(found),
            buf,
            len,
            Reason::DownloadSize { len: len->0, bytes: found_model(found)->0.buffer(buf).bytes },
        ) {
            Some(refusal) => r is Err && r->Err_0 == refusal,
            None => r is Ok && r->Ok_0 == seq_of(buf)
                && found_model(found)->0.buffers.contains_key(r->Ok_0),
        },
{
    let len: usize = match len {
        None => {
            return Err(Refusal { code: ACK_ERR_NULL, reason: Reason::Unnamed });
        },
        Some(n) => n,
    };
    match open_device(dev, found) {
        Ok(d) => match d.buffer_of(buf) {
            Ok(b) => if len as u64 != b.size() {
                Err(
                    Refusal {
                        code: ACK_ERR_SIZE,
                        reason: Reason::DownloadSize { len, bytes: b.size() },
                    },
                )
            } else {
                Ok(split_buffer_handle(buf).1)
            },
            Err(refusal) => Err(refusal),
        },
        Err(refusal) => Err(refusal),
    }
}

/// Refuse a close while the device owns buffers.
pub open spec fn close_refusal(dev: u64, found: Option<DeviceModel>) -> Option<Refusal> {
    first(
        device_refusal(dev, found),
        unless(
            found->0.buffers.dom().len() == 0,
            ACK_ERR_LIVE_BUFFERS,
            Reason::LiveBuffers { count: found->0.buffers.dom().len() as usize },
        ),
    )
}

/// Whether the device may be closed: then it closes.
pub fn ack_close(dev: u64, found: Option<&AckDevice>) -> (r: Result<(), Refusal>)
    ensures
        match close_refusal(dev, found_model(found)) {
            Some(refusal) => r is Err && r->Err_0 == refusal,
            None => r is Ok,
        },
{
    match open_device(dev, found) {
        Ok(d) => {
            let count: usize = d.live_buffers();
            if count != 0 {
                Err(
                    Refusal {
                        code: ACK_ERR_LIVE_BUFFERS,
                        reason: Reason::LiveBuffers { count },
                    },
                )
            } else {
                Ok(())
            }
        },
        Err(refusal) => Err(refusal),
    }
}

/// The fault that a caller arms on a device: a failed wait, or a failed idle.
pub open spec fn fault_of(kind: i32, result: i32) -> Fault {
    if kind == 0 {
        Fault::WaitFails(result)
    } else {
        Fault::IdleFails(result)
    }
}

/// The fault that a caller arms for a device's next fence wait (`kind` 0) or
/// device idle (`kind` 1).
pub fn ack_inject_fault(dev: u64, found: Option<&AckDevice>, kind: i32, result: i32) -> (r: Result<
    Fault,
    Refusal,
>)
    ensures
        match first(
            device_refusal(dev, found_model(found)),
            unless(kind == 0 || kind == 1, ACK_ERR_SHAPE, Reason::FaultKind { kind }),
        ) {
            Some(refusal) => r is Err && r->Err_0 == refusal,
            None => r is Ok && r->Ok_0 == fault_of(kind, result),
        },
{
    match open_device(dev, found) {
        Ok(_) => match kind {
            0 => Ok(Fault::WaitFails(result)),
            1 => Ok(Fault::IdleFails(result)),
            _ => Err(Refusal { code: ACK_ERR_SHAPE, reason: Reason::FaultKind { kind } }),
        },
        Err(refusal) => Err(refusal),
    }
}

/// An allocation may go on exactly with a size, on an open device that has a
/// buffer number left.
pub proof fn law_allocations_need_a_size_and_a_number(
    dev: u64,
    found: Option<DeviceModel>,
    bytes: u64,
)
    ensures
        allocation_refusal(dev, found, bytes) is None <==> bytes != 0 && dev != 0 && found is Some
            && !found->0.closed && found->0.next_buffer != 0xffff_ffff,
        bytes == 0 ==> allocation_refusal(dev, found, bytes)->0.code == -4,
        bytes != 0 && device_refusal(dev, found) is None && found->0.next_buffer == 0xffff_ffff
            ==> allocation_refusal(dev, found, bytes)->0.code == -4,
{
}

/// A transfer may go on exactly with host bytes, an open device, a handle that
/// resolves, and as many bytes as the buffer has.
pub proof fn law_transfers_are_whole_buffers(
    dev: u64,
    found: Option<DeviceModel>,
    buf: u64,
    len: Option<usize>,
    reason: Reason,
)
    ensures
        transfer_refusal(dev, found, buf, len, reason) is None <==> {
            &&& len is Some
            &&& dev != 0 && found is Some && !found->0.closed
            &&& found->0.handle_refusal(buf) is None
            &&& len->0 == found->0.buffer(buf).bytes
        },
        len is None ==> transfer_refusal(dev, found, buf, len, reason)->0.code == -1,
        len is Some && device_refusal(dev, found) is None && found->0.handle_refusal(buf) is None
            && len->0 != found->0.buffer(buf).bytes ==> transfer_refusal(
            dev,
            found,
            buf,
            len,
            reason,
        ) == Some(Refusal { code: -4i32, reason }),
{
}

/// A device closes exactly when it is open and owns no buffer.
pub proof fn law_only_a_device_without_buffers_closes(dev: u64, found: Option<DeviceModel>)
    ensures
        close_refusal(dev, found) is None <==> dev != 0 && found is Some && !found->0.closed
            && found->0.buffers.dom().len() == 0,
        device_refusal(dev, found) is None && found->0.buffers.dom().len() != 0
            ==> close_refusal(dev, found)->0.code == -5,
{
}

/// Kind 0 arms a failed wait and kind 1 a failed idle, each with the result given.
pub proof fn law_faults_are_armed_by_kind(result: i32)
    ensures
        fault_of(0, result) == Fault::WaitFails(result),
        fault_of(1, result) == Fault::IdleFails(result),
{
}

/// A refused allocation, transfer or close says why: no bytes, no handle left,
/// the sizes that differ, or the buffers that are still there.
pub proof fn law_refused_buffer_calls_say_why(
    dev: u64,
    d: DeviceModel,
    bytes: u64,
    buf: u64,
    len: usize,
    reason: Reason,
)
    requires
        dev != 0,
        !d.closed,
    ensures
        allocation_refusal(dev, Some(d), 0)->0.reason is ZeroBytes,
        bytes != 0 && d.next_buffer == u32::MAX ==> allocation_refusal(
            dev,
            Some(d),
            bytes,
        )->0.reason is NoBufferHandle,
        transfer_refusal(dev, Some(d), buf, None, reason)->0.reason is Unnamed,
        d.handle_refusal(buf) is Some ==> transfer_refusal(dev, Some(d), buf, Some(len), reason)
            == d.handle_refusal(buf),
        d.handle_refusal(buf) is None && len != d.buffer(buf).bytes ==> transfer_refusal(
            dev,
            Some(d),
            buf,
            Some(len),
            reason,
        )->0.reason == reason,
        d.buffers.dom().len() != 0 ==> close_refusal(dev, Some(d))->0.reason
            == (Reason::LiveBuffers { count: d.buffers.dom().len() as usize }),
{
}

} // verus!
