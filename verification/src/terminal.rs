//! The AT terminal: the table of known commands that the terminal
//! completes from, the history of sent commands and how the arrow keys walk
//! it, and the transcript lines of each exchange.

use vstd::prelude::*;

use crate::text::{push_str, starts_with, string_of, to_upper, uppercase};

verus! {

/// Text that starts with "AT".
pub open spec fn has_at_prefix(s: Seq<char>) -> bool {
    s.len() >= 2 && s[0] == 'A' && s[1] == 'T'
}

/// A table entry: a command starting with "AT" and its description.
pub open spec fn at_entry_ok(e: (&'static str, &'static str)) -> bool {
    has_at_prefix(e.0@)
}

fn add_command(v: &mut Vec<(&'static str, &'static str)>, cmd: &'static str, desc: &'static str)
    requires
        has_at_prefix(cmd@),
        forall|k: int| 0 <= k < old(v)@.len() ==> at_entry_ok(#[trigger] old(v)@[k]),
    ensures
        final(v)@ == old(v)@.push((cmd, desc)),
        forall|k: int| 0 <= k < final(v)@.len() ==> at_entry_ok(#[trigger] final(v)@[k]),
{
    v.push((cmd, desc));
}

/// The table of known commands, in the order the terminal lists them.
pub open spec fn command_table() -> Seq<(&'static str, &'static str)> {
    Seq::empty()
        .push(("AT", "Universal: Test AT interface"))
        .push(("ATI", "Universal: Request product ID"))
        .push(("ATE0", "Universal: Echo off"))
        .push(("ATE1", "Universal: Echo on"))
        .push(("ATZ", "Universal: Reset to factory defaults"))
        .push(("AT&F", "Universal: Restore factory settings"))
        .push(("AT&V", "Universal: View current config"))
        .push(("AT+CLAC", "Universal: List all available AT commands"))
        .push(("AT+CGMI", "Universal: Request manufacturer identification"))
        .push(("AT+CGMM", "Universal: Request model identification"))
        .push(("AT+CGMR", "Universal: Request firmware revision"))
        .push(("AT+CGSN", "Universal: Request IMEI"))
        .push(("AT+CIMI", "Universal: Request IMSI"))
        .push(("AT+CCID", "Universal: Show ICCID of SIM"))
        .push(("AT+CPIN?", "Universal: Check SIM PIN status"))
        .push(("AT+CPIN=", "Universal: Enter SIM PIN"))
        .push(("AT+CPUK=", "Universal: Enter PUK code"))
        .push(("AT+CLCK=", "Universal: Facility lock"))
        .push(("AT+CPWD=", "Universal: Change password"))
        .push(("AT+CREG?", "Universal: Network registration status"))
        .push(("AT+CREG=0", "Universal: Disable +CREG URC"))
        .push(("AT+CREG=1", "Universal: Enable +CREG URC"))
        .push(("AT+CREG=2", "Universal: Enable +CREG URC with location"))
        .push(("AT+CGREG?", "Universal: GPRS registration status"))
        .push(("AT+CGREG=2", "Universal: Enable +CGREG URC with location"))
        .push(("AT+CEREG?", "Universal: EPS registration status"))
        .push(("AT+CEREG=2", "Universal: Enable +CEREG URC with location"))
        .push(("AT+COPS?", "Universal: Query current operator"))
        .push(("AT+COPS=?", "Universal: Scan available operators"))
        .push(("AT+COPS=0", "Universal: Auto operator selection"))
        .push(("AT+COPS=1,2,", "Universal: Manual operator select by MCC/MNC"))
        .push(("AT+CSQ", "Universal: Signal quality query"))
        .push(("AT+CESQ", "Universal: Extended signal quality"))
        .push(("AT+CIND?", "Universal: Indicator status"))
        .push(("AT+CNMI=", "Universal: New SMS notification mode"))
        .push(("AT+CMGF=0", "Universal: Set PDU mode"))
        .push(("AT+CMGF=1", "Universal: Set text mode"))
        .push(("AT+CMGL=4", "Universal: List all SMS"))
        .push(("AT+CMGL=\"ALL\"", "Universal: List all SMS (text mode)"))
        .push(("AT+CMGR=", "Universal: Read SMS at index"))
        .push(("AT+CMGD=", "Universal: Delete SMS at index"))
        .push(("AT+CMGD=1,4", "Universal: Delete all SMS"))
        .push(("AT+CMGS=", "Universal: Send SMS"))
        .push(("AT+CSCA?", "Universal: Show SMS service centre"))
        .push(("AT+CSCA=", "Universal: Set SMS service centre"))
        .push(("AT+CPMS?", "Universal: Preferred SMS storage"))
        .push(("AT+CPMS=\"SM\"", "Universal: Set storage to SIM"))
        .push(("AT+CPMS=\"ME\"", "Universal: Set storage to modem"))
        .push(("AT+CSMP?", "Universal: SMS text mode parameters"))
        .push(("AT+CFUN?", "Universal: Phone functionality status"))
        .push(("AT+CFUN=0", "Universal: Minimum functionality"))
        .push(("AT+CFUN=1", "Universal: Full functionality"))
        .push(("AT+CFUN=4", "Universal: Flight mode"))
        .push(("AT+CFUN=1,1", "Universal: Full + reset modem"))
        .push(("AT+CMEE=1", "Universal: Verbose errors"))
        .push(("AT+CMEE=2", "Universal: Verbose errors (with code names)"))
        .push(("AT+CGDCONT?", "Universal: Query PDP context / APN settings"))
        .push(("AT+CGDCONT=", "Universal: Set PDP context / APN settings"))
        .push(("AT+CGACT?", "Universal: PDP activation status"))
        .push(("AT+CGPADDR", "Universal: Show PDP IP address"))
        .push(("AT+CGATT?", "Universal: GPRS attach status"))
        .push(("AT+CGATT=1", "Universal: Attach GPRS"))
        .push(("AT+CGATT=0", "Universal: Detach GPRS"))
        .push(("ATD", "Universal: Dial a number"))
        .push(("ATH", "Universal: Hang up"))
        .push(("ATA", "Universal: Answer incoming call"))
        .push(("AT+CLCC", "Universal: List current calls"))
        .push(("AT+CUSD=1,", "Universal: Send USSD code"))
        .push(("AT+CUSD=0", "Universal: Cancel USSD"))
        .push(("AT^HCSQ?", "Huawei: Signal quality (RSRP, SINR, RSRQ)"))
        .push(("AT^HCSQ=1", "Huawei: Enable ^HCSQ URC"))
        .push(("AT^HFREQINFO?", "Huawei: Current band/frequency info"))
        .push(("AT^HFREQINFO=1", "Huawei: Enable ^HFREQINFO URC"))
        .push(("AT^SYSINFOEX", "Huawei: Extended system info"))
        .push(("AT^SYSINFO", "Huawei: System info"))
        .push(("AT^CELLINFO?", "Huawei: Cell info"))
        .push(("AT^MONSC", "Huawei: Neighbour cell monitor"))
        .push(("AT^NRBAND?", "Huawei: NR (5G) band config"))
        .push(("AT^VERSION?", "Huawei: Firmware/component versions"))
        .push(("AT^GETPORTMODE", "Huawei: Current USB port mode"))
        .push(("AT^SETPORT?", "Huawei: Query USB port composition"))
        .push(("AT^SETPORT=", "Huawei: Set USB port composition"))
        .push(("AT^SETPORT=\"A1,A2;10,12,16,A1,A2\"", "Huawei: Debug/PC UI port mode"))
        .push(("AT^SETPORT=\"FF;10,12,16\"", "Huawei: Normal/Project port mode"))
        .push(("AT^U2DIAG?", "Huawei: Query USB mode"))
        .push(("AT^U2DIAG=0", "Huawei: Switch modem-only"))
        .push(("AT^U2DIAG=256", "Huawei: Switch HiLink+NDIS"))
        .push(("AT^CARDLOCK?", "Huawei: SIM/network lock status"))
        .push(("AT^CARDLOCK=", "Huawei: Enter unlock code"))
        .push(("AT^DATALOCK=", "Huawei: Data lock/unlock (OEM Code)"))
        .push(("AT^CVOICE?", "Huawei: Voice capability query"))
        .push(("AT^NDISDUP?", "Huawei: NDIS dial status"))
        .push(("AT^NDISDUP=", "Huawei: NDIS dial/connect command"))
        .push(("AT^DHCP?", "Huawei: DHCP/IP info"))
        .push(("AT^AUTHDATA?", "Huawei: Auth/APN profile query"))
        .push(("AT^CURC?", "Huawei: URC config query"))
        .push(("AT^CURC=", "Huawei: URC config"))
        .push(("AT^BOOT?", "Huawei: Boot mode query"))
        .push(("AT^GODLOAD", "Huawei: Enter download mode"))
        .push(("AT^FHVER", "Huawei: Firmware/hardware version"))
        .push(("AT^HWVER", "Huawei: Hardware version"))
        .push(("AT^SN", "Huawei: Serial number"))
        .push(("AT^IMEI?", "Huawei: IMEI query"))
        .push(("AT^ICCID?", "Huawei: ICCID query"))
        .push(("AT^RESET", "Huawei: Modem reset"))
        .push(("AT^RFSWITCH?", "Huawei: RF switch query"))
        .push(("AT^PREFMODE?", "Huawei: Preferred mode query"))
        .push(("AT^PREFMODE=", "Huawei: Preferred mode set"))
        .push(("AT^BAND?", "Huawei: Band query"))
        .push(("AT^BAND=", "Huawei: Band set"))
        .push(("AT^LTELOCK?", "Huawei: LTE cell/frequency lock query"))
        .push(("AT^LTELOCK=", "Huawei: LTE cell/frequency lock set"))
        .push(("AT^NWTIME?", "Huawei: Network time query"))
        .push(("AT^PLMN?", "Huawei: PLMN query"))
        .push(("AT^SYSCFG?", "Huawei: System config"))
        .push(("AT^SYSCFG=", "Huawei: Set system config"))
        .push(("AT^SYSCFGEX?", "Huawei: Extended system config"))
        .push(("AT^SYSCFGEX=", "Huawei: Set extended system config"))
        .push(("AT+QENG=\"servingcell\"", "Qualcomm: Engineering mode info"))
        .push(("AT+QENG=\"neighbourcell\"", "Qualcomm: Neighbour cells info"))
        .push(("AT+QCAINFO", "Qualcomm: Carrier Aggregation info"))
        .push(("AT+QNWINFO", "Qualcomm: Network info (Band, EARFCN)"))
        .push(("AT+QRSRP", "Qualcomm: Reference Signal Received Power"))
        .push(("AT+QRSRQ", "Qualcomm: Reference Signal Received Quality"))
        .push(("AT+QSIMSTAT", "Qualcomm: SIM insertion status"))
        .push(("AT+QGMR", "Qualcomm: Firmware revision"))
        .push(("AT+QCFG=\"band\"", "Qualcomm: Band configuration"))
        .push(("AT+QCFG=\"nwscanmode\"", "Qualcomm: Network scan mode"))
        .push(("AT+QCFG=\"nwscanseq\"", "Qualcomm: Network scan sequence"))
        .push(("AT+QCFG=\"iotopmode\"", "Qualcomm: IoT operation mode"))
        .push(("AT$QCPMPREFE?", "Qualcomm: Preferred system query"))
        .push(("AT$QCRSRP?", "Qualcomm: RSRP information"))
        .push(("AT+QINACT", "Qualcomm: Check inactivity"))
        .push(("AT+QPOWD", "Qualcomm: Power down"))
        .push(("AT+QDSIM", "Qualcomm: Dual SIM configuration"))
        .push(("AT+EGMR=1,7", "MediaTek: Request IMEI"))
        .push(("AT+EGMR=1,10", "MediaTek: Request Serial Number"))
        .push(("AT+ERSRP?", "MediaTek: RSRP status"))
        .push(("AT+ERSRQ?", "MediaTek: RSRQ status"))
        .push(("AT+EMPHINFO?", "MediaTek: Phone/Hardware info"))
        .push(("AT+ESIMS?", "MediaTek: SIM status"))
        .push(("AT+EMSR?", "MediaTek: Serving cell info"))
        .push(("AT+ECFG?", "MediaTek: Configuration query"))
        .push(("AT+EMLOC?", "MediaTek: Location info"))
        .push(("AT+ETXPW?", "MediaTek: Transmit power query"))
        .push(("AT+EPWROFF", "MediaTek: Power off"))
        .push(("AT+ERAT?", "MediaTek: RAT selection query"))
}

/// The commands the terminal knows, with what each does: universal 3GPP
/// commands, then Huawei, Qualcomm and MediaTek ones.
#[verifier::rlimit(100)]
pub fn at_commands() -> (r: Vec<(&'static str, &'static str)>)
    ensures
        r@ == command_table(),
        r@.len() == 147,
        forall|k: int| 0 <= k < r@.len() ==> at_entry_ok(#[trigger] r@[k]),
{
    let mut v: Vec<(&'static str, &'static str)> = Vec::new();
    proof {
        reveal_strlit("AT");
    }
    add_command(&mut v, "AT", "Universal: Test AT interface");
    proof {
        reveal_strlit("ATI");
    }
    add_command(&mut v, "ATI", "Universal: Request product ID");
    proof {
        reveal_strlit("ATE0");
    }
    add_command(&mut v, "ATE0", "Universal: Echo off");
    proof {
        reveal_strlit("ATE1");
    }
    add_command(&mut v, "ATE1", "Universal: Echo on");
    proof {
        reveal_strlit("ATZ");
    }
    add_command(&mut v, "ATZ", "Universal: Reset to factory defaults");
    proof {
        reveal_strlit("AT&F");
    }
    add_command(&mut v, "AT&F", "Universal: Restore factory settings");
    proof {
        reveal_strlit("AT&V");
    }
    add_command(&mut v, "AT&V", "Universal: View current config");
    proof {
        reveal_strlit("AT+CLAC");
    }
    add_command(&mut v, "AT+CLAC", "Universal: List all available AT commands");
    proof {
        reveal_strlit("AT+CGMI");
    }
    add_command(&mut v, "AT+CGMI", "Universal: Request manufacturer identification");
    proof {
        reveal_strlit("AT+CGMM");
    }
    add_command(&mut v, "AT+CGMM", "Universal: Request model identification");
    proof {
        reveal_strlit("AT+CGMR");
    }
    add_command(&mut v, "AT+CGMR", "Universal: Request firmware revision");
    proof {
        reveal_strlit("AT+CGSN");
    }
    add_command(&mut v, "AT+CGSN", "Universal: Request IMEI");
    proof {
        reveal_strlit("AT+CIMI");
    }
    add_command(&mut v, "AT+CIMI", "Universal: Request IMSI");
    proof {
        reveal_strlit("AT+CCID");
    }
    add_command(&mut v, "AT+CCID", "Universal: Show ICCID of SIM");
    proof {
        reveal_strlit("AT+CPIN?");
    }
    add_command(&mut v, "AT+CPIN?", "Universal: Check SIM PIN status");
    proof {
        reveal_strlit("AT+CPIN=");
    }
    add_command(&mut v, "AT+CPIN=", "Universal: Enter SIM PIN");
    proof {
        reveal_strlit("AT+CPUK=");
    }
    add_command(&mut v, "AT+CPUK=", "Universal: Enter PUK code");
    proof {
        reveal_strlit("AT+CLCK=");
    }
    add_command(&mut v, "AT+CLCK=", "Universal: Facility lock");
    proof {
        reveal_strlit("AT+CPWD=");
    }
    add_command(&mut v, "AT+CPWD=", "Universal: Change password");
    proof {
        reveal_strlit("AT+CREG?");
    }
    add_command(&mut v, "AT+CREG?", "Universal: Network registration status");
    proof {
        reveal_strlit("AT+CREG=0");
    }
    add_command(&mut v, "AT+CREG=0", "Universal: Disable +CREG URC");
    proof {
        reveal_strlit("AT+CREG=1");
    }
    add_command(&mut v, "AT+CREG=1", "Universal: Enable +CREG URC");
    proof {
        reveal_strlit("AT+CREG=2");
    }
    add_command(&mut v, "AT+CREG=2", "Universal: Enable +CREG URC with location");
    proof {
        reveal_strlit("AT+CGREG?");
    }
    add_command(&mut v, "AT+CGREG?", "Universal: GPRS registration status");
    proof {
        reveal_strlit("AT+CGREG=2");
    }
    add_command(&mut v, "AT+CGREG=2", "Universal: Enable +CGREG URC with location");
    proof {
        reveal_strlit("AT+CEREG?");
    }
    add_command(&mut v, "AT+CEREG?", "Universal: EPS registration status");
    proof {
        reveal_strlit("AT+CEREG=2");
    }
    add_command(&mut v, "AT+CEREG=2", "Universal: Enable +CEREG URC with location");
    proof {
        reveal_strlit("AT+COPS?");
    }
    add_command(&mut v, "AT+COPS?", "Universal: Query current operator");
    proof {
        reveal_strlit("AT+COPS=?");
    }
    add_command(&mut v, "AT+COPS=?", "Universal: Scan available operators");
    proof {
        reveal_strlit("AT+COPS=0");
    }
    add_command(&mut v, "AT+COPS=0", "Universal: Auto operator selection");
    proof {
        reveal_strlit("AT+COPS=1,2,");
    }
    add_command(&mut v, "AT+COPS=1,2,", "Universal: Manual operator select by MCC/MNC");
    proof {
        reveal_strlit("AT+CSQ");
    }
    add_command(&mut v, "AT+CSQ", "Universal: Signal quality query");
    proof {
        reveal_strlit("AT+CESQ");
    }
    add_command(&mut v, "AT+CESQ", "Universal: Extended signal quality");
    proof {
        reveal_strlit("AT+CIND?");
    }
    add_command(&mut v, "AT+CIND?", "Universal: Indicator status");
    proof {
        reveal_strlit("AT+CNMI=");
    }
    add_command(&mut v, "AT+CNMI=", "Universal: New SMS notification mode");
    proof {
        reveal_strlit("AT+CMGF=0");
    }
    add_command(&mut v, "AT+CMGF=0", "Universal: Set PDU mode");
    proof {
        reveal_strlit("AT+CMGF=1");
    }
    add_command(&mut v, "AT+CMGF=1", "Universal: Set text mode");
    proof {
        reveal_strlit("AT+CMGL=4");
    }
    add_command(&mut v, "AT+CMGL=4", "Universal: List all SMS");
    proof {
        reveal_strlit("AT+CMGL=\"ALL\"");
    }
    add_command(&mut v, "AT+CMGL=\"ALL\"", "Universal: List all SMS (text mode)");
    proof {
        reveal_strlit("AT+CMGR=");
    }
    add_command(&mut v, "AT+CMGR=", "Universal: Read SMS at index");
    proof {
        reveal_strlit("AT+CMGD=");
    }
    add_command(&mut v, "AT+CMGD=", "Universal: Delete SMS at index");
    proof {
        reveal_strlit("AT+CMGD=1,4");
    }
    add_command(&mut v, "AT+CMGD=1,4", "Universal: Delete all SMS");
    proof {
        reveal_strlit("AT+CMGS=");
    }
    add_command(&mut v, "AT+CMGS=", "Universal: Send SMS");
    proof {
        reveal_strlit("AT+CSCA?");
    }
    add_command(&mut v, "AT+CSCA?", "Universal: Show SMS service centre");
    proof {
        reveal_strlit("AT+CSCA=");
    }
    add_command(&mut v, "AT+CSCA=", "Universal: Set SMS service centre");
    proof {
        reveal_strlit("AT+CPMS?");
    }
    add_command(&mut v, "AT+CPMS?", "Universal: Preferred SMS storage");
    proof {
        reveal_strlit("AT+CPMS=\"SM\"");
    }
    add_command(&mut v, "AT+CPMS=\"SM\"", "Universal: Set storage to SIM");
    proof {
        reveal_strlit("AT+CPMS=\"ME\"");
    }
    add_command(&mut v, "AT+CPMS=\"ME\"", "Universal: Set storage to modem");
    proof {
        reveal_strlit("AT+CSMP?");
    }
    add_command(&mut v, "AT+CSMP?", "Universal: SMS text mode parameters");
    proof {
        reveal_strlit("AT+CFUN?");
    }
    add_command(&mut v, "AT+CFUN?", "Universal: Phone functionality status");
    proof {
        reveal_strlit("AT+CFUN=0");
    }
    add_command(&mut v, "AT+CFUN=0", "Universal: Minimum functionality");
    proof {
        reveal_strlit("AT+CFUN=1");
    }
    add_command(&mut v, "AT+CFUN=1", "Universal: Full functionality");
    proof {
        reveal_strlit("AT+CFUN=4");
    }
    add_command(&mut v, "AT+CFUN=4", "Universal: Flight mode");
    proof {
        reveal_strlit("AT+CFUN=1,1");
    }
    add_command(&mut v, "AT+CFUN=1,1", "Universal: Full + reset modem");
    proof {
        reveal_strlit("AT+CMEE=1");
    }
    add_command(&mut v, "AT+CMEE=1", "Universal: Verbose errors");
    proof {
        reveal_strlit("AT+CMEE=2");
    }
    add_command(&mut v, "AT+CMEE=2", "Universal: Verbose errors (with code names)");
    proof {
        reveal_strlit("AT+CGDCONT?");
    }
    add_command(&mut v, "AT+CGDCONT?", "Universal: Query PDP context / APN settings");
    proof {
        reveal_strlit("AT+CGDCONT=");
    }
    add_command(&mut v, "AT+CGDCONT=", "Universal: Set PDP context / APN settings");
    proof {
        reveal_strlit("AT+CGACT?");
    }
    add_command(&mut v, "AT+CGACT?", "Universal: PDP activation status");
    proof {
        reveal_strlit("AT+CGPADDR");
    }
    add_command(&mut v, "AT+CGPADDR", "Universal: Show PDP IP address");
    proof {
        reveal_strlit("AT+CGATT?");
    }
    add_command(&mut v, "AT+CGATT?", "Universal: GPRS attach status");
    proof {
        reveal_strlit("AT+CGATT=1");
    }
    add_command(&mut v, "AT+CGATT=1", "Universal: Attach GPRS");
    proof {
        reveal_strlit("AT+CGATT=0");
    }
    add_command(&mut v, "AT+CGATT=0", "Universal: Detach GPRS");
    proof {
        reveal_strlit("ATD");
    }
    add_command(&mut v, "ATD", "Universal: Dial a number");
    proof {
        reveal_strlit("ATH");
    }
    add_command(&mut v, "ATH", "Universal: Hang up");
    proof {
        reveal_strlit("ATA");
    }
    add_command(&mut v, "ATA", "Universal: Answer incoming call");
    proof {
        reveal_strlit("AT+CLCC");
    }
    add_command(&mut v, "AT+CLCC", "Universal: List current calls");
    proof {
        reveal_strlit("AT+CUSD=1,");
    }
    add_command(&mut v, "AT+CUSD=1,", "Universal: Send USSD code");
    proof {
        reveal_strlit("AT+CUSD=0");
    }
    add_command(&mut v, "AT+CUSD=0", "Universal: Cancel USSD");
    proof {
        reveal_strlit("AT^HCSQ?");
    }
    add_command(&mut v, "AT^HCSQ?", "Huawei: Signal quality (RSRP, SINR, RSRQ)");
    proof {
        reveal_strlit("AT^HCSQ=1");
    }
    add_command(&mut v, "AT^HCSQ=1", "Huawei: Enable ^HCSQ URC");
    proof {
        reveal_strlit("AT^HFREQINFO?");
    }
    add_command(&mut v, "AT^HFREQINFO?", "Huawei: Current band/frequency info");
    proof {
        reveal_strlit("AT^HFREQINFO=1");
    }
    add_command(&mut v, "AT^HFREQINFO=1", "Huawei: Enable ^HFREQINFO URC");
    proof {
        reveal_strlit("AT^SYSINFOEX");
    }
    add_command(&mut v, "AT^SYSINFOEX", "Huawei: Extended system info");
    proof {
        reveal_strlit("AT^SYSINFO");
    }
    add_command(&mut v, "AT^SYSINFO", "Huawei: System info");
    proof {
        reveal_strlit("AT^CELLINFO?");
    }
    add_command(&mut v, "AT^CELLINFO?", "Huawei: Cell info");
    proof {
        reveal_strlit("AT^MONSC");
    }
    add_command(&mut v, "AT^MONSC", "Huawei: Neighbour cell monitor");
    proof {
        reveal_strlit("AT^NRBAND?");
    }
    add_command(&mut v, "AT^NRBAND?", "Huawei: NR (5G) band config");
    proof {
        reveal_strlit("AT^VERSION?");
    }
    add_command(&mut v, "AT^VERSION?", "Huawei: Firmware/component versions");
    proof {
        reveal_strlit("AT^GETPORTMODE");
    }
    add_command(&mut v, "AT^GETPORTMODE", "Huawei: Current USB port mode");
    proof {
        reveal_strlit("AT^SETPORT?");
    }
    add_command(&mut v, "AT^SETPORT?", "Huawei: Query USB port composition");
    proof {
        reveal_strlit("AT^SETPORT=");
    }
    add_command(&mut v, "AT^SETPORT=", "Huawei: Set USB port composition");
    proof {
        reveal_strlit("AT^SETPORT=\"A1,A2;10,12,16,A1,A2\"");
    }
    add_command(&mut v, "AT^SETPORT=\"A1,A2;10,12,16,A1,A2\"", "Huawei: Debug/PC UI port mode");
    proof {
        reveal_strlit("AT^SETPORT=\"FF;10,12,16\"");
    }
    add_command(&mut v, "AT^SETPORT=\"FF;10,12,16\"", "Huawei: Normal/Project port mode");
    proof {
        reveal_strlit("AT^U2DIAG?");
    }
    add_command(&mut v, "AT^U2DIAG?", "Huawei: Query USB mode");
    proof {
        reveal_strlit("AT^U2DIAG=0");
    }
    add_command(&mut v, "AT^U2DIAG=0", "Huawei: Switch modem-only");
    proof {
        reveal_strlit("AT^U2DIAG=256");
    }
    add_command(&mut v, "AT^U2DIAG=256", "Huawei: Switch HiLink+NDIS");
    proof {
        reveal_strlit("AT^CARDLOCK?");
    }
    add_command(&mut v, "AT^CARDLOCK?", "Huawei: SIM/network lock status");
    proof {
        reveal_strlit("AT^CARDLOCK=");
    }
    add_command(&mut v, "AT^CARDLOCK=", "Huawei: Enter unlock code");
    proof {
        reveal_strlit("AT^DATALOCK=");
    }
    add_command(&mut v, "AT^DATALOCK=", "Huawei: Data lock/unlock (OEM Code)");
    proof {
        reveal_strlit("AT^CVOICE?");
    }
    add_command(&mut v, "AT^CVOICE?", "Huawei: Voice capability query");
    proof {
        reveal_strlit("AT^NDISDUP?");
    }
    add_command(&mut v, "AT^NDISDUP?", "Huawei: NDIS dial status");
    proof {
        reveal_strlit("AT^NDISDUP=");
    }
    add_command(&mut v, "AT^NDISDUP=", "Huawei: NDIS dial/connect command");
    proof {
        reveal_strlit("AT^DHCP?");
    }
    add_command(&mut v, "AT^DHCP?", "Huawei: DHCP/IP info");
    proof {
        reveal_strlit("AT^AUTHDATA?");
    }
    add_command(&mut v, "AT^AUTHDATA?", "Huawei: Auth/APN profile query");
    proof {
        reveal_strlit("AT^CURC?");
    }
    add_command(&mut v, "AT^CURC?", "Huawei: URC config query");
    proof {
        reveal_strlit("AT^CURC=");
    }
    add_command(&mut v, "AT^CURC=", "Huawei: URC config");
    proof {
        reveal_strlit("AT^BOOT?");
    }
    add_command(&mut v, "AT^BOOT?", "Huawei: Boot mode query");
    proof {
        reveal_strlit("AT^GODLOAD");
    }
    add_command(&mut v, "AT^GODLOAD", "Huawei: Enter download mode");
    proof {
        reveal_strlit("AT^FHVER");
    }
    add_command(&mut v, "AT^FHVER", "Huawei: Firmware/hardware version");
    proof {
        reveal_strlit("AT^HWVER");
    }
    add_command(&mut v, "AT^HWVER", "Huawei: Hardware version");
    proof {
        reveal_strlit("AT^SN");
    }
    add_command(&mut v, "AT^SN", "Huawei: Serial number");
    proof {
        reveal_strlit("AT^IMEI?");
    }
    add_command(&mut v, "AT^IMEI?", "Huawei: IMEI query");
    proof {
        reveal_strlit("AT^ICCID?");
    }
    add_command(&mut v, "AT^ICCID?", "Huawei: ICCID query");
    proof {
        reveal_strlit("AT^RESET");
    }
    add_command(&mut v, "AT^RESET", "Huawei: Modem reset");
    proof {
        reveal_strlit("AT^RFSWITCH?");
    }
    add_command(&mut v, "AT^RFSWITCH?", "Huawei: RF switch query");
    proof {
        reveal_strlit("AT^PREFMODE?");
    }
    add_command(&mut v, "AT^PREFMODE?", "Huawei: Preferred mode query");
    proof {
        reveal_strlit("AT^PREFMODE=");
    }
    add_command(&mut v, "AT^PREFMODE=", "Huawei: Preferred mode set");
    proof {
        reveal_strlit("AT^BAND?");
    }
    add_command(&mut v, "AT^BAND?", "Huawei: Band query");
    proof {
        reveal_strlit("AT^BAND=");
    }
    add_command(&mut v, "AT^BAND=", "Huawei: Band set");
    proof {
        reveal_strlit("AT^LTELOCK?");
    }
    add_command(&mut v, "AT^LTELOCK?", "Huawei: LTE cell/frequency lock query");
    proof {
        reveal_strlit("AT^LTELOCK=");
    }
    add_command(&mut v, "AT^LTELOCK=", "Huawei: LTE cell/frequency lock set");
    proof {
        reveal_strlit("AT^NWTIME?");
    }
    add_command(&mut v, "AT^NWTIME?", "Huawei: Network time query");
    proof {
        reveal_strlit("AT^PLMN?");
    }
    add_command(&mut v, "AT^PLMN?", "Huawei: PLMN query");
    proof {
        reveal_strlit("AT^SYSCFG?");
    }
    add_command(&mut v, "AT^SYSCFG?", "Huawei: System config");
    proof {
        reveal_strlit("AT^SYSCFG=");
    }
    add_command(&mut v, "AT^SYSCFG=", "Huawei: Set system config");
    proof {
        reveal_strlit("AT^SYSCFGEX?");
    }
    add_command(&mut v, "AT^SYSCFGEX?", "Huawei: Extended system config");
    proof {
        reveal_strlit("AT^SYSCFGEX=");
    }
    add_command(&mut v, "AT^SYSCFGEX=", "Huawei: Set extended system config");
    proof {
        reveal_strlit("AT+QENG=\"servingcell\"");
    }
    add_command(&mut v, "AT+QENG=\"servingcell\"", "Qualcomm: Engineering mode info");
    proof {
        reveal_strlit("AT+QENG=\"neighbourcell\"");
    }
    add_command(&mut v, "AT+QENG=\"neighbourcell\"", "Qualcomm: Neighbour cells info");
    proof {
        reveal_strlit("AT+QCAINFO");
    }
    add_command(&mut v, "AT+QCAINFO", "Qualcomm: Carrier Aggregation info");
    proof {
        reveal_strlit("AT+QNWINFO");
    }
    add_command(&mut v, "AT+QNWINFO", "Qualcomm: Network info (Band, EARFCN)");
    proof {
        reveal_strlit("AT+QRSRP");
    }
    add_command(&mut v, "AT+QRSRP", "Qualcomm: Reference Signal Received Power");
    proof {
        reveal_strlit("AT+QRSRQ");
    }
    add_command(&mut v, "AT+QRSRQ", "Qualcomm: Reference Signal Received Quality");
    proof {
        reveal_strlit("AT+QSIMSTAT");
    }
    add_command(&mut v, "AT+QSIMSTAT", "Qualcomm: SIM insertion status");
    proof {
        reveal_strlit("AT+QGMR");
    }
    add_command(&mut v, "AT+QGMR", "Qualcomm: Firmware revision");
    proof {
        reveal_strlit("AT+QCFG=\"band\"");
    }
    add_command(&mut v, "AT+QCFG=\"band\"", "Qualcomm: Band configuration");
    proof {
        reveal_strlit("AT+QCFG=\"nwscanmode\"");
    }
    add_command(&mut v, "AT+QCFG=\"nwscanmode\"", "Qualcomm: Network scan mode");
    proof {
        reveal_strlit("AT+QCFG=\"nwscanseq\"");
    }
    add_command(&mut v, "AT+QCFG=\"nwscanseq\"", "Qualcomm: Network scan sequence");
    proof {
        reveal_strlit("AT+QCFG=\"iotopmode\"");
    }
    add_command(&mut v, "AT+QCFG=\"iotopmode\"", "Qualcomm: IoT operation mode");
    proof {
        reveal_strlit("AT$QCPMPREFE?");
    }
    add_command(&mut v, "AT$QCPMPREFE?", "Qualcomm: Preferred system query");
    proof {
        reveal_strlit("AT$QCRSRP?");
    }
    add_command(&mut v, "AT$QCRSRP?", "Qualcomm: RSRP information");
    proof {
        reveal_strlit("AT+QINACT");
    }
    add_command(&mut v, "AT+QINACT", "Qualcomm: Check inactivity");
    proof {
        reveal_strlit("AT+QPOWD");
    }
    add_command(&mut v, "AT+QPOWD", "Qualcomm: Power down");
    proof {
        reveal_strlit("AT+QDSIM");
    }
    add_command(&mut v, "AT+QDSIM", "Qualcomm: Dual SIM configuration");
    proof {
        reveal_strlit("AT+EGMR=1,7");
    }
    add_command(&mut v, "AT+EGMR=1,7", "MediaTek: Request IMEI");
    proof {
        reveal_strlit("AT+EGMR=1,10");
    }
    add_command(&mut v, "AT+EGMR=1,10", "MediaTek: Request Serial Number");
    proof {
        reveal_strlit("AT+ERSRP?");
    }
    add_command(&mut v, "AT+ERSRP?", "MediaTek: RSRP status");
    proof {
        reveal_strlit("AT+ERSRQ?");
    }
    add_command(&mut v, "AT+ERSRQ?", "MediaTek: RSRQ status");
    proof {
        reveal_strlit("AT+EMPHINFO?");
    }
    add_command(&mut v, "AT+EMPHINFO?", "MediaTek: Phone/Hardware info");
    proof {
        reveal_strlit("AT+ESIMS?");
    }
    add_command(&mut v, "AT+ESIMS?", "MediaTek: SIM status");
    proof {
        reveal_strlit("AT+EMSR?");
    }
    add_command(&mut v, "AT+EMSR?", "MediaTek: Serving cell info");
    proof {
        reveal_strlit("AT+ECFG?");
    }
    add_command(&mut v, "AT+ECFG?", "MediaTek: Configuration query");
    proof {
        reveal_strlit("AT+EMLOC?");
    }
    add_command(&mut v, "AT+EMLOC?", "MediaTek: Location info");
    proof {
        reveal_strlit("AT+ETXPW?");
    }
    add_command(&mut v, "AT+ETXPW?", "MediaTek: Transmit power query");
    proof {
        reveal_strlit("AT+EPWROFF");
    }
    add_command(&mut v, "AT+EPWROFF", "MediaTek: Power off");
    proof {
        reveal_strlit("AT+ERAT?");
    }
    add_command(&mut v, "AT+ERAT?", "MediaTek: RAT selection query");
    v
}


// ---------------------------------------------------------------------------
// Completion
// ---------------------------------------------------------------------------

/// A command completes the typed text when, both upper-cased, the command
/// starts with the text.
pub open spec fn completes(cmd: Seq<char>, typed: Seq<char>) -> bool {
    starts_with(uppercase(cmd), uppercase(typed))
}

/// Position of the first entry from `i` on that completes the typed text.
pub open spec fn first_completion(
    t: Seq<(&'static str, &'static str)>,
    typed: Seq<char>,
    i: int,
) -> Option<int>
    decreases t.len() - i,
{
    if i < 0 || i >= t.len() {
        None
    } else if completes(t[i].0@, typed) {
        Some(i)
    } else {
        first_completion(t, typed, i + 1)
    }
}

fn completes_exec(cmd: &str, typed_upper: &str, typed: Ghost<Seq<char>>) -> (r: bool)
    requires
        typed_upper@ == uppercase(typed@),
    ensures
        r == completes(cmd@, typed@),
{
    let u = to_upper(cmd);
    crate::text::str_starts_with(u.as_str(), typed_upper)
}

/// The command that the Tab key puts in place of the typed text: the first
/// entry of the table that completes it.
pub fn complete_from(table: &[(&'static str, &'static str)], typed: &str) -> (r: Option<
    &'static str,
>)
    ensures
        match first_completion(table@, typed@, 0) {
            Some(k) => r == Some(table@[k].0),
            None => r is None,
        },
{
    let up = to_upper(typed);
    let mut i: usize = 0;
    while i < table.len()
        invariant
            0 <= i <= table@.len(),
            up@ == uppercase(typed@),
            first_completion(table@, typed@, 0) == first_completion(table@, typed@, i as int),
        decreases table.len() - i,
    {
        if completes_exec(table[i].0, up.as_str(), Ghost(typed@)) {
            return Some(table[i].0);
        }
        i = i + 1;
    }
    None
}

/// The entries that complete the typed text, in table order.
pub open spec fn completions(t: Seq<(&'static str, &'static str)>, typed: Seq<char>) -> Seq<
    (&'static str, &'static str),
>
    decreases t.len(),
{
    if t.len() == 0 {
        Seq::empty()
    } else {
        let rest = completions(t.drop_last(), typed);
        if completes(t.last().0@, typed) {
            rest.push(t.last())
        } else {
            rest
        }
    }
}

/// What the suggestion list shows: nothing until the upper-cased text is
/// two bytes long, then the first eight completions.
pub open spec fn suggestion_list(t: Seq<(&'static str, &'static str)>, typed: Seq<char>) -> Seq<
    (&'static str, &'static str),
> {
    if vstd::utf8::encode_utf8(uppercase(typed)).len() < 2 {
        Seq::empty()
    } else {
        let c = completions(t, typed);
        if c.len() <= 8 {
            c
        } else {
            c.take(8)
        }
    }
}

proof fn lemma_completions_grow(t: Seq<(&'static str, &'static str)>, typed: Seq<char>, i: int)
    requires
        0 <= i <= t.len(),
    ensures
        completions(t.take(i), typed).len() <= completions(t, typed).len(),
        completions(t, typed).take(completions(t.take(i), typed).len() as int) == completions(
            t.take(i),
            typed,
        ),
    decreases t.len() - i,
{
    if i == t.len() {
        assert(t.take(i) == t);
    } else {
        lemma_completions_grow(t, typed, i + 1);
        assert(t.take(i + 1).drop_last() == t.take(i));
    }
}

/// Whether the UTF-8 encoding of the characters is shorter than two bytes.
fn shorter_than_two_bytes(cs: &[char]) -> (r: bool)
    ensures
        r == (vstd::utf8::encode_utf8(cs@).len() < 2),
{
    proof {
        crate::text::lemma_encode_utf8_len_ge(cs@);
        if cs@.len() == 1 {
            crate::text::lemma_encode_utf8_push(Seq::<char>::empty(), cs@[0]);
            assert(Seq::<char>::empty().push(cs@[0]) == cs@);
            assert(vstd::utf8::encode_utf8(Seq::<char>::empty()).len() == 0);
        }
    }
    cs.len() == 0 || (cs.len() == 1 && (cs[0] as u32) <= 0x7F)
}

/// The suggestions shown under the command box.
pub fn suggestions(table: &[(&'static str, &'static str)], typed: &str) -> (r: Vec<
    (&'static str, &'static str),
>)
    ensures
        r@ == suggestion_list(table@, typed@),
{
    let up = to_upper(typed);
    let mut r: Vec<(&'static str, &'static str)> = Vec::new();
    let ucs = crate::text::chars_of(up.as_str());
    if shorter_than_two_bytes(&ucs) {
        return r;
    }
    let mut i: usize = 0;
    while i < table.len()
        invariant
            0 <= i <= table@.len(),
            up@ == uppercase(typed@),
            vstd::utf8::encode_utf8(uppercase(typed@)).len() >= 2,
            r@ == completions(table@.take(i as int), typed@),
            r@.len() <= 8,
        decreases table.len() - i,
    {
        if r.len() == 8 {
            proof {
                lemma_completions_grow(table@, typed@, i as int);
            }
            return r;
        }
        assert(table@.take(i + 1).drop_last() == table@.take(i as int));
        if completes_exec(table[i].0, up.as_str(), Ghost(typed@)) {
            r.push(table[i]);
        }
        i = i + 1;
    }
    assert(table@.take(table@.len() as int) == table@);
    r
}

// ---------------------------------------------------------------------------
// History and transcript
// ---------------------------------------------------------------------------

/// The last `n` items of `v` (all of them when there are fewer).
pub open spec fn last_items<T>(v: Seq<T>, n: nat) -> Seq<T> {
    if v.len() <= n {
        v
    } else {
        v.subrange(v.len() - n, v.len() as int)
    }
}

/// The sent commands, oldest first, at most one hundred, and how far back
/// the arrow keys have gone (-1: not browsing).
pub struct CommandHistory {
    pub entries: Vec<String>,
    pub cursor: i32,
}

/// What an arrow key does to the command box.
#[derive(Debug)]
pub enum Recall {
    /// Show this earlier command.
    Show(String),
    /// Empty the box.
    Clear,
    /// Leave the box as it is.
    Keep,
}

impl CommandHistory {
    /// At most one hundred commands, and the cursor on one of them or -1.
    pub open spec fn wf(&self) -> bool {
        self.entries@.len() <= 100 && -1 <= self.cursor < self.entries@.len()
    }

    pub fn new() -> (r: Self)
        ensures
            r.wf(),
            r.entries@.len() == 0,
            r.cursor == -1,
    {
        CommandHistory { entries: Vec::new(), cursor: -1 }
    }

    /// Records a sent command: the oldest goes when there would be more
    /// than one hundred; browsing starts over.
    pub fn push(&mut self, cmd: &str)
        requires
            old(self).wf(),
        ensures
            final(self).wf(),
            final(self).cursor == -1,
            crate::schedule::texts(final(self).entries@) == last_items(
                crate::schedule::texts(old(self).entries@).push(cmd@),
                100,
            ),
    {
        let ghost before = crate::schedule::texts(self.entries@).push(cmd@);
        self.entries.push(string_of(cmd));
        if self.entries.len() > 100 {
            self.entries.remove(0);
        }
        assert(crate::schedule::texts(self.entries@) =~= last_items(before, 100));
        self.cursor = -1;
    }

    /// The up arrow: one command further back, while there is one.
    pub fn up(&mut self) -> (r: Recall)
        requires
            old(self).wf(),
        ensures
            final(self).wf(),
            final(self).entries@ == old(self).entries@,
            old(self).cursor < old(self).entries@.len() - 1 ==> final(self).cursor == old(
                self,
            ).cursor + 1 && (r matches Recall::Show(c) && c@ == old(self).entries@[old(
                self,
            ).entries@.len() - 1 - final(self).cursor]@),
            old(self).cursor >= old(self).entries@.len() - 1 ==> final(self).cursor == old(
                self,
            ).cursor && r is Keep,
    {
        let n = self.entries.len() as i32;
        if self.cursor < n - 1 {
            self.cursor = self.cursor + 1;
            let k = (n - 1 - self.cursor) as usize;
            Recall::Show(self.entries[k].clone())
        } else {
            Recall::Keep
        }
    }

    /// The down arrow: one command forward, or an empty box at the newest.
    pub fn down(&mut self) -> (r: Recall)
        requires
            old(self).wf(),
        ensures
            final(self).wf(),
            final(self).entries@ == old(self).entries@,
            old(self).cursor > 0 ==> final(self).cursor == old(self).cursor - 1 && (r matches Recall::Show(
                c,
            ) && c@ == old(self).entries@[old(self).entries@.len() - 1 - final(self).cursor]@),
            old(self).cursor <= 0 ==> final(self).cursor == old(self).cursor && r is Clear,
    {
        if self.cursor > 0 {
            self.cursor = self.cursor - 1;
            let n = self.entries.len() as i32;
            let k = (n - 1 - self.cursor) as usize;
            Recall::Show(self.entries[k].clone())
        } else {
            Recall::Clear
        }
    }
}

/// What the terminal prints for a command sent at `ts`: the command, then
/// the answer, "(no response)" for an empty one, or a notice when no modem
/// is connected (`None`).
pub open spec fn transcript(ts: Seq<char>, cmd: Seq<char>, response: Option<Seq<char>>) -> Seq<char> {
    "\n["@ + ts + "] >>> "@ + cmd + "\n"@ + match response {
        None => "  [NOT CONNECTED - cannot send AT command]\n"@,
        Some(a) => if a.len() == 0 {
            "  (no response)\n"@
        } else {
            a + "\n"@
        },
    }
}

/// Writes the transcript of one exchange.
pub fn transcript_for(ts: &str, cmd: &str, response: Option<&str>) -> (r: String)
    ensures
        r@ == transcript(ts@, cmd@, match response {
            Some(a) => Some(a@),
            None => None,
        }),
{
    let mut r = string_of("\n[");
    push_str(&mut r, ts);
    push_str(&mut r, "] >>> ");
    push_str(&mut r, cmd);
    push_str(&mut r, "\n");
    match response {
        None => push_str(&mut r, "  [NOT CONNECTED - cannot send AT command]\n"),
        Some(a) => {
            if a.is_empty() {
                push_str(&mut r, "  (no response)\n");
            } else {
                push_str(&mut r, a);
                push_str(&mut r, "\n");
            }
        },
    }
    r
}

} // verus!
