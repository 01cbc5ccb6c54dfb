//! What a paste is for: the payload is written, then the keystroke is sent, once, and then the
//! clipboard has its text back.
use crate::devices::DeviceCall;
use crate::paster::{paste_calls, paste_result, PasteAnswers, PasteError};
use vstd::prelude::*;

verus! {

/// Law: where the payload could be written and there is a keyboard, a paste sends the
/// keystroke, and sends it once. The write of the payload stands before it, announced; the
/// wait, if one is set, stands right before it, for as long as is set; every other write
/// stands after it. The paste succeeds exactly if the keystroke did.
pub proof fn a_paste_sends_the_keystroke(
    payload: Seq<char>,
    delay_ms: u64,
    restore: bool,
    a: PasteAnswers,
)
    requires
        a.written is Ok,
        a.available,
    ensures
        ({
            let c = paste_calls(payload, delay_ms, restore, a);
            let w: int = if restore {
                2
            } else {
                1
            };
            let k: int = if delay_ms > 0 {
                w + 3
            } else {
                w + 2
            };
            &&& k < c.len()
            &&& c[w - 1] == DeviceCall::Announce(payload)
            &&& c[w] == DeviceCall::Write(payload, a.written)
            &&& c[w + 1] == DeviceCall::Available(true)
            &&& delay_ms > 0 ==> c[k - 1] == DeviceCall::Settle(delay_ms)
            &&& c[k] == DeviceCall::CtrlV(a.sent)
            &&& forall|j: int| 0 <= j < c.len() && (#[trigger] c[j]) is CtrlV ==> j == k
            &&& forall|j: int| 0 <= j < c.len() && (#[trigger] c[j]) is Write ==> j == w || j > k
            &&& forall|j: int|
                0 <= j < c.len() && (#[trigger] c[j]) is Settle ==> delay_ms > 0 && j == k - 1
        }),
        paste_result(a) is Ok <==> a.sent is Ok,
        a.sent is Err ==> paste_result(a) == Err::<(), PasteError>(
            PasteError::Uinput(a.sent->Err_0),
        ),
{
}

/// Law: what was on the clipboard is read before anything else, if it is to be put back, and a
/// paste that sent the keystroke ends by putting it back, announced. Without a text that was
/// read nothing is put back.
pub proof fn a_paste_puts_the_text_back(
    payload: Seq<char>,
    delay_ms: u64,
    restore: bool,
    a: PasteAnswers,
)
    ensures
        ({
            let c = paste_calls(payload, delay_ms, restore, a);
            let n = c.len() as int;
            let first: int = if restore {
                1
            } else {
                0
            };
            &&& restore ==> c[0] == DeviceCall::Read(a.read)
            &&& forall|j: int| 0 <= j < n && (#[trigger] c[j]) is Read ==> restore && j == 0
            &&& n > first + 1
            &&& c[first] == DeviceCall::Announce(payload)
            &&& c[first + 1] == DeviceCall::Write(payload, a.written)
            &&& restore && a.read is Ok && (a.written is Err || a.available) ==> {
                &&& n > first + 3
                &&& c[n - 2] == DeviceCall::Announce(a.read->Ok_0)
                &&& c[n - 1] == DeviceCall::Write(a.read->Ok_0, a.restored)
                &&& forall|j: int|
                    0 <= j < n && (#[trigger] c[j]) is Write ==> j == first + 1 || j == n - 1
            }
            &&& !restore || a.read is Err || (a.written is Ok && !a.available) ==> forall|j: int|
                0 <= j < n && (#[trigger] c[j]) is Write ==> j == first + 1
        }),
{
}

/// Law: a payload that could not be written is not pasted. Nothing is asked of the keyboard,
/// and the paste fails with the clipboard's error.
pub proof fn a_failed_write_sends_nothing(
    payload: Seq<char>,
    delay_ms: u64,
    restore: bool,
    a: PasteAnswers,
    j: int,
)
    requires
        a.written is Err,
        0 <= j < paste_calls(payload, delay_ms, restore, a).len(),
    ensures
        ({
            let call = paste_calls(payload, delay_ms, restore, a)[j];
            !(call is CtrlV) && !(call is Settle) && !(call is Available)
        }),
        paste_result(a) == Err::<(), PasteError>(PasteError::Clipboard(a.written->Err_0)),
{
}

/// Law: without a keyboard the payload is left on the clipboard to be pasted by hand. It is
/// asked once, nothing is sent or waited for, the payload is the only text written, and the
/// paste succeeds.
pub proof fn without_a_keyboard_the_payload_stays(
    payload: Seq<char>,
    delay_ms: u64,
    restore: bool,
    a: PasteAnswers,
)
    requires
        a.written is Ok,
        !a.available,
    ensures
        ({
            let c = paste_calls(payload, delay_ms, restore, a);
            let first: int = if restore {
                1
            } else {
                0
            };
            &&& c.len() == first + 3
            &&& c[first] == DeviceCall::Announce(payload)
            &&& c[first + 1] == DeviceCall::Write(payload, a.written)
            &&& c[first + 2] == DeviceCall::Available(false)
        }),
        paste_result(a) == Ok::<(), PasteError>(()),
{
}

/// Law: the number of calls of a paste. There is none beside those that the other laws name.
pub proof fn a_paste_asks_for_nothing_else(
    payload: Seq<char>,
    delay_ms: u64,
    restore: bool,
    a: PasteAnswers,
)
    ensures
        paste_calls(payload, delay_ms, restore, a).len() == 2 + (if restore {
            1int
        } else {
            0
        }) + (if a.written is Ok {
            1int
        } else {
            0
        }) + (if a.written is Ok && a.available {
            1int
        } else {
            0
        }) + (if a.written is Ok && a.available && delay_ms > 0 {
            1int
        } else {
            0
        }) + (if restore && a.read is Ok && (a.written is Err || a.available) {
            2int
        } else {
            0
        }),
{
}

/// Law: a paste that reports success has put the payload on the clipboard, and either the
/// keystroke was sent without an error or there is no keyboard.
pub proof fn success_means_pasted(
    payload: Seq<char>,
    delay_ms: u64,
    restore: bool,
    a: PasteAnswers,
)
    requires
        paste_result(a) is Ok,
    ensures
        ({
            let c = paste_calls(payload, delay_ms, restore, a);
            &&& a.written is Ok && c.contains(DeviceCall::Write(payload, a.written))
            &&& (a.sent is Ok && c.contains(DeviceCall::CtrlV(a.sent))) || c.contains(
                DeviceCall::Available(false),
            )
        }),
{
    let c = paste_calls(payload, delay_ms, restore, a);
    let w: int = if restore {
        2
    } else {
        1
    };
    assert(c[w] == DeviceCall::Write(payload, a.written));
    if a.available {
        let k: int = if delay_ms > 0 {
            w + 3
        } else {
            w + 2
        };
        assert(c[k] == DeviceCall::CtrlV(a.sent));
    } else {
        assert(c[w + 1] == DeviceCall::Available(false));
    }
}

} // verus!
