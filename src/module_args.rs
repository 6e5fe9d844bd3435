use vstd::prelude::*;
use vstd::string::StrSliceExecFns;

use crate::config::RemapConfig;
use crate::state::{kind_lower, DeviceKind};

verus! {

pub open spec fn digit_text(d: nat) -> Seq<char> {
    if d == 0 {
        "0"@
    } else if d == 1 {
        "1"@
    } else if d == 2 {
        "2"@
    } else if d == 3 {
        "3"@
    } else if d == 4 {
        "4"@
    } else if d == 5 {
        "5"@
    } else if d == 6 {
        "6"@
    } else if d == 7 {
        "7"@
    } else if d == 8 {
        "8"@
    } else {
        "9"@
    }
}

/// `n` in decimal, without leading zeros.
pub open spec fn decimal(n: nat) -> Seq<char>
    decreases n,
{
    if n < 10 {
        digit_text(n)
    } else {
        decimal(n / 10) + digit_text(n % 10)
    }
}

/// `s` with each single quote written as `'\''\'`.
pub open spec fn escape_quotes(s: Seq<char>) -> Seq<char>
    decreases s.len(),
{
    if s.len() == 0 {
        s
    } else if s.last() == '\'' {
        escape_quotes(s.drop_last()) + "'\\''\\'"@
    } else {
        escape_quotes(s.drop_last()).push(s.last())
    }
}

/// `k='v'`, the value escaped.
pub open spec fn property_item(k: Seq<char>, v: Seq<char>) -> Seq<char> {
    k + "='"@ + escape_quotes(v) + "'"@
}

/// The items of `p` separated by single spaces.
pub open spec fn property_list(p: Seq<(Seq<char>, String)>) -> Seq<char>
    decreases p.len(),
{
    if p.len() == 0 {
        Seq::empty()
    } else if p.len() == 1 {
        property_item(p[0].0, p[0].1@)
    } else {
        property_list(p.drop_last()) + " "@ + property_item(p.last().0, p.last().1@)
    }
}

/// ` label=value` where the option is set, else nothing.
pub open spec fn text_field(label: Seq<char>, v: Option<String>) -> Seq<char> {
    match v {
        Some(x) => " "@ + label + "="@ + x@,
        None => Seq::empty(),
    }
}

pub open spec fn number_field(label: Seq<char>, v: Option<u32>) -> Seq<char> {
    match v {
        Some(x) => " "@ + label + "="@ + decimal(x as nat),
        None => Seq::empty(),
    }
}

/// The argument of the module that creates the derived device of `r` on the
/// device at server index `master_index`: `master=` first, then each option
/// that is set, in a fixed order, separated by spaces.
pub open spec fn remap_args(kind: DeviceKind, r: RemapConfig, master_index: u32) -> Seq<char> {
    "master="@ + decimal(master_index as nat) + text_field(kind_lower(kind) + "_name"@, r.device_name)
        + match r.device_properties {
        Some(p) => " "@ + kind_lower(kind) + "_properties=\""@ + property_list(p.pairs()) + "\""@,
        None => Seq::empty(),
    } + text_field("format"@, r.format) + number_field("rate"@, r.rate) + number_field(
        "channels"@,
        r.channels,
    ) + text_field("channel_map"@, r.channel_map) + text_field(
        "master_channel_map"@,
        r.master_channel_map,
    ) + text_field("resample_method"@, r.resample_method) + match r.remix {
        Some(true) => " remix=yes"@,
        Some(false) => " remix=no"@,
        None => Seq::empty(),
    }
}

fn digit(d: u32) -> (r: &'static str)
    requires
        d < 10,
    ensures
        r@ == digit_text(d as nat),
{
    if d == 0 {
        "0"
    } else if d == 1 {
        "1"
    } else if d == 2 {
        "2"
    } else if d == 3 {
        "3"
    } else if d == 4 {
        "4"
    } else if d == 5 {
        "5"
    } else if d == 6 {
        "6"
    } else if d == 7 {
        "7"
    } else if d == 8 {
        "8"
    } else {
        "9"
    }
}

/// Appends `n` in decimal.
fn append_decimal(out: &mut String, n: u32)
    ensures
        final(out)@ == old(out)@ + decimal(n as nat),
    decreases n,
{
    if n < 10 {
        out.append(digit(n));
    } else {
        append_decimal(out, n / 10);
        out.append(digit(n % 10));
        assert(final(out)@ =~= old(out)@ + decimal(n as nat));
    }
}

/// Appends `v` with its single quotes escaped.
fn append_escaped(out: &mut String, v: &str)
    ensures
        final(out)@ == old(out)@ + escape_quotes(v@),
{
    let n = v.unicode_len();
    let mut i: usize = 0;
    assert(v@.subrange(0, 0) =~= Seq::<char>::empty());
    assert(out@ =~= old(out)@ + escape_quotes(v@.subrange(0, 0)));
    while i < n
        invariant
            n == v@.len(),
            i <= n,
            out@ == old(out)@ + escape_quotes(v@.subrange(0, i as int)),
        decreases n - i,
    {
        let c = v.get_char(i);
        let ghost next = v@.subrange(0, i as int + 1);
        assert(next.drop_last() =~= v@.subrange(0, i as int));
        assert(next.last() == c);
        if c == '\'' {
            out.append("'\\''\\'");
        } else {
            out.append(v.substring_char(i, i + 1));
            assert(v@.subrange(i as int, i as int + 1) =~= seq![c]);
        }
        assert(out@ =~= old(out)@ + escape_quotes(next));
        i = i + 1;
    }
    assert(v@.subrange(0, n as int) =~= v@);
}

fn append_text_field(out: &mut String, label: &str, v: &Option<String>)
    ensures
        final(out)@ == old(out)@ + text_field(label@, *v),
{
    if let Some(x) = v {
        out.append(" ");
        out.append(label);
        out.append("=");
        out.append(x.as_str());
    }
    assert(out@ =~= old(out)@ + text_field(label@, *v));
}

fn append_number_field(out: &mut String, label: &str, v: Option<u32>)
    ensures
        final(out)@ == old(out)@ + number_field(label@, v),
{
    if let Some(x) = v {
        out.append(" ");
        out.append(label);
        out.append("=");
        append_decimal(out, x);
    }
    assert(out@ =~= old(out)@ + number_field(label@, v));
}

fn append_property_list(out: &mut String, p: &crate::config::Properties)
    ensures
        final(out)@ == old(out)@ + property_list(p.pairs()),
{
    let mut i: usize = 0;
    assert(p.pairs().subrange(0, 0) =~= Seq::<(Seq<char>, String)>::empty());
    assert(out@ =~= old(out)@ + property_list(p.pairs().subrange(0, 0)));
    while i < p.len()
        invariant
            i <= p.pairs().len(),
            out@ == old(out)@ + property_list(p.pairs().subrange(0, i as int)),
        decreases p.pairs().len() - i,
    {
        let ghost next = p.pairs().subrange(0, i as int + 1);
        assert(next.drop_last() =~= p.pairs().subrange(0, i as int));
        assert(next.last() == p.pairs()[i as int]);
        let ghost before = out@;
        if i > 0 {
            out.append(" ");
        }
        out.append(p.name_at(i).as_str());
        out.append("='");
        append_escaped(out, p.value_at(i).as_str());
        out.append("'");
        if i == 0 {
            assert(next.len() == 1);
            assert(out@ =~= before + property_item(next[0].0, next[0].1@));
        } else {
            assert(out@ =~= before + " "@ + property_item(next.last().0, next.last().1@));
        }
        assert(out@ =~= old(out)@ + property_list(next));
        i = i + 1;
    }
    assert(p.pairs().subrange(0, p.pairs().len() as int) =~= p.pairs());
}

/// The argument of the module that creates the derived device described by
/// `remap_config` on the device at server index `master_index`.
pub fn build_remap_module_args(
    kind: DeviceKind,
    remap_config: &RemapConfig,
    master_index: u32,
) -> (r: String)
    ensures
        r@ == remap_args(kind, *remap_config, master_index),
{
    let mut args = String::from_str("master=");
    append_decimal(&mut args, master_index);
    let mut name_label = String::from_str(kind.name_lower_case());
    name_label.append("_name");
    append_text_field(&mut args, name_label.as_str(), &remap_config.device_name);
    let ghost before_props = args@;
    if let Some(device_properties) = &remap_config.device_properties {
        args.append(" ");
        args.append(kind.name_lower_case());
        args.append("_properties=\"");
        append_property_list(&mut args, device_properties);
        args.append("\"");
    }
    let ghost props_part = match &remap_config.device_properties {
        Some(p) => " "@ + kind_lower(kind) + "_properties=\""@ + property_list(p.pairs()) + "\""@,
        None => Seq::<char>::empty(),
    };
    assert(args@ =~= before_props + props_part);
    append_text_field(&mut args, "format", &remap_config.format);
    append_number_field(&mut args, "rate", remap_config.rate);
    append_number_field(&mut args, "channels", remap_config.channels);
    append_text_field(&mut args, "channel_map", &remap_config.channel_map);
    append_text_field(&mut args, "master_channel_map", &remap_config.master_channel_map);
    append_text_field(&mut args, "resample_method", &remap_config.resample_method);
    let ghost before_remix = args@;
    if let Some(remix) = remap_config.remix {
        if remix {
            args.append(" remix=yes");
        } else {
            args.append(" remix=no");
        }
    }
    let ghost remix_part = match remap_config.remix {
        Some(true) => " remix=yes"@,
        Some(false) => " remix=no"@,
        None => Seq::<char>::empty(),
    };
    assert(args@ =~= before_remix + remix_part);
    assert(args@ =~= remap_args(kind, *remap_config, master_index));
    args
}

} // verus!
