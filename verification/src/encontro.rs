//! O encontro dos containers: quem é esperado, parado ou procurado é quem subiu, na mesma rede, com o
//! mesmo nome e na mesma porta.

use vstd::prelude::*;

use crate::comandos::{lei_alvo_do_comando, lei_subida, valor_da_opcao};
use crate::config::{nome_do_receptor, Config, GeradorPlano, ModoTls};
use crate::decimal::digitos;
use crate::orquestrador::{
    acoes_ate_parar_o_relay, acoes_de_parar_receptores, acoes_do_gerador, acoes_do_relay,
    acoes_dos_geradores, acoes_dos_receptores, acoes_finais, acoes_iniciais, args_da_validacao,
    args_do_gerador, args_do_rsyslog, arquivo_do_receptor, caminho, esperar_receptor, etapas,
    montagens_do_rsyslog, subir_receptor, valida_o_arquivo, AcaoVista, EtapaVista, Execucao,
    Validacao,
};
use crate::percurso::RECORTE;
use crate::podman::{args_das_montagens, args_de_subir, montagem, textos};
use crate::rsyslog::{
    alvos, autenticacao, certificado_do_receptor, certificado_do_relay, conf_do_receptor,
    entrada_do_relay, lei_todos_os_alvos, religacao, saida_do_relay,
};
use crate::texto::{comeca, contem};
use crate::trechos::{acaba, lemma_contem_em, lemma_entre, lemma_no_meio};

verus! {

// ---- Montagens ----

/// Uma montagem começa pela origem e o destino, e acaba dizendo se é só de leitura.
pub proof fn lei_montagem(origem: Seq<char>, destino: Seq<char>)
    ensures
        montagem(origem, destino, true) == origem + ":"@ + destino + ":ro,Z"@,
        montagem(origem, destino, false) == origem + ":"@ + destino + ":Z"@,
        montagem(origem, destino, true) != montagem(origem, destino, false),
{
    reveal_strlit(":ro,Z");
    reveal_strlit(":Z");
    assert(montagem(origem, destino, true).len() > montagem(origem, destino, false).len());
}

/// O nome relativo fica dentro da base, e o absoluto é ele mesmo.
pub proof fn lei_caminho(base: Seq<char>, nome: Seq<char>)
    requires
        nome.len() > 0,
    ensures
        nome[0] == '/' ==> caminho(base, nome) == nome,
        nome[0] != '/' && base.len() > 0 && base.last() != '/' ==> caminho(base, nome) == base + "/"@
            + nome,
        nome[0] != '/' && (base.len() == 0 || base.last() == '/') ==> caminho(base, nome) == base
            + nome,
{
}

// ---- Receptores ----

/// O receptor que sobe é o que se espera e o que se para: o container tem o mesmo nome nas três ações,
/// e o prefixo pelo qual a limpeza o acha.
pub proof fn lei_receptor_esperado_e_parado(
    cfg: Config,
    exec: Execucao,
    imagem: Seq<char>,
    n: nat,
    i: nat,
)
    requires
        1 <= i <= n,
    ensures
        subir_receptor(cfg.tls.modo, exec, imagem, i) matches AcaoVista::Subir(args) && {
            &&& valor_da_opcao(args, "--name"@) matches Some(nome) && {
                &&& comeca(nome, "hsb-"@)
                &&& esperar_receptor(i) matches AcaoVista::EsperarPorta {
                    container,
                    porta,
                    udp,
                    limite,
                    oque,
                } && container == nome && !udp && limite == 30_000_000_000
                &&& acoes_de_parar_receptores(n)[i - 1] matches AcaoVista::Parar(parar) && parar
                    == seq!["stop"@, "-t"@, digitos(10), nome]
            }
            &&& valor_da_opcao(args, "--network"@) == Some("hugesyslogs-rede"@)
        },
{
    let nome = "hsb-"@ + nome_do_receptor(i);
    lei_subida(
        nome,
        imagem,
        "hugesyslogs-rede"@,
        nome_do_receptor(i),
        montagens_do_rsyslog(cfg.tls.modo, exec, arquivo_do_receptor(i), "/etc/hsb/recv.conf"@),
        args_do_rsyslog("/etc/hsb/recv.conf"@),
    );
    assert(nome.take("hsb-"@.len() as int) =~= "hsb-"@);
}

/// O relay encaminha a cada receptor pelo apelido com que ele sobe, na porta em que a configuração
/// dele escuta e em que se espera por ele.
pub proof fn lei_receptor_alcancado(cfg: Config, exec: Execucao, imagem: Seq<char>, i: usize)
    requires
        1 <= i <= cfg.receptores.quantidade,
    ensures
        subir_receptor(cfg.tls.modo, exec, imagem, i as nat) matches AcaoVista::Subir(args) && {
            &&& valor_da_opcao(args, "--network-alias"@) matches Some(apelido) && contem(
                saida_do_relay(cfg),
                "\""@ + apelido + "\""@,
            )
            &&& esperar_receptor(i as nat) matches AcaoVista::EsperarPorta {
                container,
                porta,
                udp,
                limite,
                oque,
            } && {
                &&& contem(saida_do_relay(cfg), "]\n    port=\""@ + digitos(porta as nat) + "\""@)
                &&& contem(
                    conf_do_receptor(cfg, i),
                    "\n\ninput(type=\"imtcp\" port=\""@ + digitos(porta as nat) + "\""@,
                )
            }
        },
{
    let n = i as nat;
    lei_subida(
        "hsb-"@ + nome_do_receptor(n),
        imagem,
        "hugesyslogs-rede"@,
        nome_do_receptor(n),
        montagens_do_rsyslog(cfg.tls.modo, exec, arquivo_do_receptor(n), "/etc/hsb/recv.conf"@),
        args_do_rsyslog("/etc/hsb/recv.conf"@),
    );
    lemma_alvo_do_relay(cfg, n);
    lemma_porta_do_relay(cfg);
    lemma_porta_do_receptor(cfg, i);
}

proof fn lemma_alvo_do_relay(cfg: Config, i: nat)
    requires
        1 <= i <= cfg.receptores.quantidade,
    ensures
        contem(saida_do_relay(cfg), "\""@ + nome_do_receptor(i) + "\""@),
{
    let n = cfg.receptores.quantidade as nat;
    let a = "action(\n    type=\"omfwd\"\n    target=["@;
    let s = saida_do_relay(cfg);
    let k = (a.len() + alvos(n).len()) as int;
    lei_todos_os_alvos(n, i);
    lemma_contem_em(a, alvos(n), s.skip(k), "\""@ + nome_do_receptor(i) + "\""@);
    assert(s =~= a + alvos(n) + s.skip(k));
}

proof fn lemma_porta_do_relay(cfg: Config)
    ensures
        contem(saida_do_relay(cfg), "]\n    port=\""@ + digitos(6514) + "\""@),
{
    let a = "action(\n    type=\"omfwd\"\n    target=["@ + alvos(cfg.receptores.quantidade as nat);
    let b = "]\n    port=\""@;
    let c =
        "\"\n    protocol=\"tcp\"\n    StreamDriver=\"gtls\"\n    StreamDriverMode=\"1\"\n    StreamDriverAuthMode=\""@;
    reveal_strlit("\"");
    reveal_strlit(
        "\"\n    protocol=\"tcp\"\n    StreamDriver=\"gtls\"\n    StreamDriverMode=\"1\"\n    StreamDriverAuthMode=\"",
    );
    let s = saida_do_relay(cfg);
    let k = (a + b + digitos(6514) + c).len() as int;
    assert(acaba(b, b)) by {
        assert(b.skip(0) =~= b);
    }
    assert(comeca(c, "\""@)) by {
        assert(c.take(1) =~= "\""@);
    }
    lemma_entre(a, b, digitos(6514), c, s.skip(k), b, "\""@);
    assert(s =~= a + b + digitos(6514) + c + s.skip(k));
}

proof fn lemma_porta_do_receptor(cfg: Config, i: usize)
    ensures
        contem(
            conf_do_receptor(cfg, i),
            "\n\ninput(type=\"imtcp\" port=\""@ + digitos(6514) + "\""@,
        ),
{
    let a = "# Receptor gerado pelo HugeSyslogs.\nglobal(\n    workDirectory=\"/tmp\"\n"@
        + certificado_do_receptor(cfg.tls.modo);
    let b =
        ")\n\nmodule(load=\"imtcp\"\n       StreamDriver.Name=\"gtls\"\n       StreamDriver.Mode=\"1\"\n       StreamDriver.AuthMode=\"anon\")\n\ninput(type=\"imtcp\" port=\""@;
    let c =
        "\")\n\ntemplate(name=\"hsb\" type=\"string\"\n         string=\"%timegenerated:::date-rfc3339% %msg:1:"@;
    let fim = "\n\ninput(type=\"imtcp\" port=\""@;
    reveal_strlit("\"");
    reveal_strlit("\n\ninput(type=\"imtcp\" port=\"");
    reveal_strlit(
        ")\n\nmodule(load=\"imtcp\"\n       StreamDriver.Name=\"gtls\"\n       StreamDriver.Mode=\"1\"\n       StreamDriver.AuthMode=\"anon\")\n\ninput(type=\"imtcp\" port=\"",
    );
    reveal_strlit(
        "\")\n\ntemplate(name=\"hsb\" type=\"string\"\n         string=\"%timegenerated:::date-rfc3339% %msg:1:",
    );
    let s = conf_do_receptor(cfg, i);
    let k = (a + b + digitos(6514) + c).len() as int;
    assert(acaba(b, fim)) by {
        assert(b.skip(b.len() - fim.len()) =~= fim);
    }
    assert(comeca(c, "\""@)) by {
        assert(c.take(1) =~= "\""@);
    }
    lemma_entre(a, b, digitos(6514), c, s.skip(k), fim, "\""@);
    assert(s =~= a + b + digitos(6514) + c + s.skip(k));
}

// ---- Relay ----

/// O relay que sobe é o que se espera, em TCP e em UDP, e o que se para: o container tem o mesmo nome,
/// com o prefixo pelo qual a limpeza o acha.
pub proof fn lei_relay_esperado_e_parado(cfg: Config, exec: Execucao, imagem: Seq<char>)
    ensures
        ({
            let acoes = acoes_do_relay(cfg.tls.modo, exec, imagem);
            &&& acoes[1] matches AcaoVista::Subir(args) && valor_da_opcao(
                args,
                "--name"@,
            ) matches Some(nome) && {
                &&& comeca(nome, "hsb-"@)
                &&& acoes_ate_parar_o_relay(cfg)[5] == AcaoVista::Parar(
                    seq!["stop"@, "-t"@, digitos(10), nome],
                )
                &&& acoes[2] matches AcaoVista::EsperarPorta {
                    container,
                    porta,
                    udp,
                    limite,
                    oque,
                } && container == nome && !udp && limite == 30_000_000_000
                &&& acoes[3] matches AcaoVista::EsperarPorta {
                    container,
                    porta,
                    udp,
                    limite,
                    oque,
                } && container == nome && udp && limite == 30_000_000_000
            }
        }),
{
    let nome = "hsb-"@ + "relay"@;
    lemma_opcoes_do_relay(cfg, exec, imagem);
    assert(nome.take("hsb-"@.len() as int) =~= "hsb-"@);
}

/// Os geradores procuram o relay, na rede em que ele está, pelo apelido com que ele sobe e na porta
/// em que se espera por ele.
pub proof fn lei_relay_alcancado(cfg: Config, p: GeradorPlano, exec: Execucao, imagem: Seq<char>)
    ensures
        ({
            let acoes = acoes_do_relay(cfg.tls.modo, exec, imagem);
            &&& acoes[1] matches AcaoVista::Subir(args) && {
                &&& valor_da_opcao(args, "--network"@) == Some("hugesyslogs-rede"@)
                &&& valor_da_opcao(args, "--network-alias"@) matches Some(apelido)
                    && acoes[2] matches AcaoVista::EsperarPorta {
                    container,
                    porta,
                    udp,
                    limite,
                    oque,
                } && valor_da_opcao(args_do_gerador(cfg, p), "--alvo"@) == Some(
                    apelido + ":"@ + digitos(porta as nat),
                )
            }
        }),
{
    lemma_opcoes_do_relay(cfg, exec, imagem);
    lei_alvo_do_comando(cfg, p);
    lemma_endereco(digitos(5514));
}

proof fn lemma_endereco(porta: Seq<char>)
    ensures
        "relay:"@ + porta == "relay"@ + ":"@ + porta,
{
    reveal_strlit("relay:");
    reveal_strlit("relay");
    reveal_strlit(":");
    assert("relay:"@ =~= "relay"@ + ":"@);
}

proof fn lemma_opcoes_do_relay(cfg: Config, exec: Execucao, imagem: Seq<char>)
    ensures
        acoes_do_relay(cfg.tls.modo, exec, imagem)[1] matches AcaoVista::Subir(args) && {
            &&& valor_da_opcao(args, "--name"@) == Some("hsb-"@ + "relay"@)
            &&& valor_da_opcao(args, "--network"@) == Some("hugesyslogs-rede"@)
            &&& valor_da_opcao(args, "--network-alias"@) == Some("relay"@)
        },
{
    lei_subida(
        "hsb-"@ + "relay"@,
        imagem,
        "hugesyslogs-rede"@,
        "relay"@,
        montagens_do_rsyslog(cfg.tls.modo, exec, "relay.conf"@, "/etc/hsb/relay.conf"@),
        args_do_rsyslog("/etc/hsb/relay.conf"@),
    );
}

/// O relay escuta em UDP e em TCP na porta em que se espera por ele.
pub proof fn lei_entrada_do_relay(cfg: Config, exec: Execucao, imagem: Seq<char>)
    ensures
        acoes_do_relay(cfg.tls.modo, exec, imagem)[2] matches AcaoVista::EsperarPorta {
            container,
            porta,
            udp,
            limite,
            oque,
        } && {
            &&& contem(
                entrada_do_relay(cfg.tls.modo),
                "input(type=\"imudp\" port=\""@ + digitos(porta as nat) + "\""@,
            )
            &&& contem(
                entrada_do_relay(cfg.tls.modo),
                "input(type=\"imtcp\" port=\""@ + digitos(porta as nat) + "\""@,
            )
        },
        acoes_do_relay(cfg.tls.modo, exec, imagem)[3] matches AcaoVista::EsperarPorta {
            container,
            porta,
            udp,
            limite,
            oque,
        } && porta == 5514,
{
    let a = "# Relay gerado pelo HugeSyslogs.\nglobal(\n    workDirectory=\"/tmp\"\n"@
        + certificado_do_relay(cfg.tls.modo);
    let b =
        ")\n\nmodule(load=\"impstats\" interval=\"5\" format=\"json\"\n       log.file=\"/out/relay-stats.log\" log.syslog=\"off\" resetCounters=\"off\")\n\nmodule(load=\"imudp\")\ninput(type=\"imudp\" port=\""@;
    let c = "\" rcvbufSize=\"16m\")\n\nmodule(load=\"imtcp\")\ninput(type=\"imtcp\" port=\""@;
    let d = "\")\n\n"@;
    let em_udp = "input(type=\"imudp\" port=\""@;
    let em_tcp = "input(type=\"imtcp\" port=\""@;
    let n = digitos(5514);
    let s = entrada_do_relay(cfg.tls.modo);
    reveal_strlit("\"");
    reveal_strlit("input(type=\"imudp\" port=\"");
    reveal_strlit("input(type=\"imtcp\" port=\"");
    reveal_strlit("\")\n\n");
    reveal_strlit("\" rcvbufSize=\"16m\")\n\nmodule(load=\"imtcp\")\ninput(type=\"imtcp\" port=\"");
    reveal_strlit(
        ")\n\nmodule(load=\"impstats\" interval=\"5\" format=\"json\"\n       log.file=\"/out/relay-stats.log\" log.syslog=\"off\" resetCounters=\"off\")\n\nmodule(load=\"imudp\")\ninput(type=\"imudp\" port=\"",
    );
    assert(acaba(b, em_udp)) by {
        assert(b.skip(b.len() - em_udp.len()) =~= em_udp);
    }
    assert(acaba(c, em_tcp)) by {
        assert(c.skip(c.len() - em_tcp.len()) =~= em_tcp);
    }
    assert(comeca(c, "\""@)) by {
        assert(c.take(1) =~= "\""@);
    }
    assert(comeca(d, "\""@)) by {
        assert(d.take(1) =~= "\""@);
    }
    lemma_entre(a, b, n, c, n + d, em_udp, "\""@);
    assert(s =~= a + b + n + c + (n + d));
    lemma_entre(a + b + n, c, n, d, Seq::empty(), em_tcp, "\""@);
    assert(s =~= (a + b + n) + c + n + d + Seq::empty());
}

/// O envio do relay traz o tamanho da fila, os workers, a autenticação que o modo pede e, só quando
/// o intervalo não é zero, de quantas em quantas mensagens as conexões são refeitas.
pub proof fn lei_saida_do_relay(cfg: Config)
    ensures
        contem(
            saida_do_relay(cfg),
            "queue.size=\""@ + digitos(cfg.relay.tamanho_fila as nat) + "\"\n"@,
        ),
        contem(
            saida_do_relay(cfg),
            "queue.workerThreads=\""@ + digitos(cfg.relay.workers_fila as nat) + "\"\n"@,
        ),
        cfg.tls.modo == ModoTls::Anon ==> contem(
            saida_do_relay(cfg),
            "StreamDriverAuthMode=\""@ + "anon"@ + "\"\n"@,
        ),
        cfg.tls.modo == ModoTls::Certvalid ==> contem(
            saida_do_relay(cfg),
            "StreamDriverAuthMode=\""@ + "x509/certvalid"@ + "\"\n"@,
        ),
        cfg.relay.rebind_interval > 0 ==> contem(
            saida_do_relay(cfg),
            "rebindInterval=\""@ + digitos(cfg.relay.rebind_interval as nat) + "\"\n"@,
        ),
        cfg.relay.rebind_interval == 0 ==> exists|inicio: Seq<char>|
            saida_do_relay(cfg) == inicio + ("queue.workerThreads=\""@ + digitos(
                cfg.relay.workers_fila as nat,
            ) + "\"\n"@ + ")\n"@),
{
    let s = saida_do_relay(cfg);
    let a = "action(\n    type=\"omfwd\"\n    target=["@ + alvos(cfg.receptores.quantidade as nat)
        + "]\n    port=\""@ + digitos(6514);
    let b =
        "\"\n    protocol=\"tcp\"\n    StreamDriver=\"gtls\"\n    StreamDriverMode=\"1\"\n    StreamDriverAuthMode=\""@;
    let modo = autenticacao(cfg.tls.modo);
    let c = "\"\n    TCP_Framing=\"octet-counted\"\n    queue.type=\"linkedList\"\n    queue.size=\""@;
    let fila = digitos(cfg.relay.tamanho_fila as nat);
    let d = "\"\n    queue.workerThreads=\""@;
    let workers = digitos(cfg.relay.workers_fila as nat);
    let e = "\"\n"@;
    let f = religacao(cfg.relay);
    let g = ")\n"@;
    reveal_strlit("StreamDriverAuthMode=\"");
    reveal_strlit("queue.size=\"");
    reveal_strlit("queue.workerThreads=\"");
    reveal_strlit("\"\n");
    reveal_strlit(
        "\"\n    protocol=\"tcp\"\n    StreamDriver=\"gtls\"\n    StreamDriverMode=\"1\"\n    StreamDriverAuthMode=\"",
    );
    reveal_strlit(
        "\"\n    TCP_Framing=\"octet-counted\"\n    queue.type=\"linkedList\"\n    queue.size=\"",
    );
    reveal_strlit("\"\n    queue.workerThreads=\"");
    assert(acaba(b, "StreamDriverAuthMode=\""@)) by {
        let x = "StreamDriverAuthMode=\""@;
        assert(b.skip(b.len() - x.len()) =~= x);
    }
    assert(acaba(c, "queue.size=\""@)) by {
        let x = "queue.size=\""@;
        assert(c.skip(c.len() - x.len()) =~= x);
    }
    assert(acaba(d, "queue.workerThreads=\""@)) by {
        let x = "queue.workerThreads=\""@;
        assert(d.skip(d.len() - x.len()) =~= x);
    }
    assert(comeca(c, e) && comeca(d, e) && comeca(e, e)) by {
        assert(c.take(2) =~= e);
        assert(d.take(2) =~= e);
        assert(e.take(2) =~= e);
    }
    lemma_entre(a, b, modo, c, fila + d + workers + e + f + g, "StreamDriverAuthMode=\""@, e);
    assert(s =~= a + b + modo + c + (fila + d + workers + e + f + g));
    lemma_entre(a + b + modo, c, fila, d, workers + e + f + g, "queue.size=\""@, e);
    assert(s =~= (a + b + modo) + c + fila + d + (workers + e + f + g));
    lemma_entre(
        a + b + modo + c + fila,
        d,
        workers,
        e,
        f + g,
        "queue.workerThreads=\""@,
        e,
    );
    assert(s =~= (a + b + modo + c + fila) + d + workers + e + (f + g));
    if cfg.relay.rebind_interval > 0 {
        let r = "    rebindInterval=\""@;
        let x = "rebindInterval=\""@;
        let n = digitos(cfg.relay.rebind_interval as nat);
        reveal_strlit("    rebindInterval=\"");
        reveal_strlit("rebindInterval=\"");
        assert(acaba(r, x)) by {
            assert(r.skip(4) =~= x);
        }
        let antes = a + b + modo + c + fila + d + workers + e;
        lemma_entre(antes, r, n, e, g, x, e);
        assert(s =~= antes + r + n + e + g);
    } else {
        let x = "queue.workerThreads=\""@;
        let inicio = a + b + modo + c + fila + d.take(d.len() - x.len());
        assert(d =~= d.take(d.len() - x.len()) + x);
        assert(s =~= inicio + (x + workers + e + g));
    }
}

// ---- Arquivos montados ----

/// O rsyslog de um container lê o arquivo de configuração que lhe foi montado, só para leitura; grava
/// em `/out`; e tem os certificados em `/etc/hsb/certs` se e somente se o modo os usa.
pub proof fn lei_receptor_le_a_sua_configuracao(
    cfg: Config,
    exec: Execucao,
    imagem: Seq<char>,
    i: nat,
)
    ensures
        subir_receptor(cfg.tls.modo, exec, imagem, i) matches AcaoVista::Subir(args) && {
            &&& args[args.len() - 3] == "/etc/hsb/recv.conf"@
            &&& args[args.len() - 4] == "-f"@
            &&& args[args.len() - 6] == "rsyslogd"@
            &&& args[args.len() - 7] == imagem
            &&& args[11] == caminho(exec.conf@, nome_do_receptor(i) + ".conf"@) + ":"@
                + args[args.len() - 3] + ":ro,Z"@
            &&& args[13] == exec.out@ + ":"@ + "/out"@ + ":Z"@
            &&& cfg.tls.modo == ModoTls::Certvalid ==> args.len() == 23 && args[15] == exec.certs@
                + ":"@ + "/etc/hsb/certs"@ + ":ro,Z"@
            &&& cfg.tls.modo == ModoTls::Anon ==> args.len() == 21
        },
{
    let ms = montagens_do_rsyslog(
        cfg.tls.modo,
        exec,
        arquivo_do_receptor(i),
        "/etc/hsb/recv.conf"@,
    );
    lemma_posicoes_da_subida(
        "hsb-"@ + nome_do_receptor(i),
        imagem,
        nome_do_receptor(i),
        ms,
        args_do_rsyslog("/etc/hsb/recv.conf"@),
    );
}

/// O rsyslog do relay lê o arquivo de configuração que lhe foi montado, só para leitura.
pub proof fn lei_relay_le_a_sua_configuracao(cfg: Config, exec: Execucao, imagem: Seq<char>)
    ensures
        acoes_do_relay(cfg.tls.modo, exec, imagem)[1] matches AcaoVista::Subir(args) && {
            &&& args[args.len() - 3] == "/etc/hsb/relay.conf"@
            &&& args[args.len() - 4] == "-f"@
            &&& args[args.len() - 6] == "rsyslogd"@
            &&& args[args.len() - 7] == imagem
            &&& args[11] == caminho(exec.conf@, "relay.conf"@) + ":"@ + args[args.len() - 3]
                + ":ro,Z"@
            &&& args[13] == exec.out@ + ":"@ + "/out"@ + ":Z"@
            &&& cfg.tls.modo == ModoTls::Certvalid ==> args.len() == 23 && args[15] == exec.certs@
                + ":"@ + "/etc/hsb/certs"@ + ":ro,Z"@
            &&& cfg.tls.modo == ModoTls::Anon ==> args.len() == 21
        },
{
    let ms = montagens_do_rsyslog(cfg.tls.modo, exec, "relay.conf"@, "/etc/hsb/relay.conf"@);
    lemma_posicoes_da_subida(
        "hsb-"@ + "relay"@,
        imagem,
        "relay"@,
        ms,
        args_do_rsyslog("/etc/hsb/relay.conf"@),
    );
}

proof fn lemma_posicoes_da_subida(
    nome: Seq<char>,
    imagem: Seq<char>,
    apelido: Seq<char>,
    ms: Seq<Seq<char>>,
    comando: Seq<Seq<char>>,
)
    ensures
        ({
            let args = args_de_subir(nome, imagem, "hugesyslogs-rede"@, apelido, ms, comando);
            let n = ms.len() as int;
            &&& args.len() == 11 + 2 * n + comando.len()
            &&& args[10 + 2 * n] == imagem
            &&& forall|k: int| 0 <= k < comando.len() ==> args[11 + 2 * n + k] == #[trigger] comando[k]
            &&& n > 0 ==> args[11] == ms[0]
            &&& n > 1 ==> args[13] == ms[1]
            &&& n > 2 ==> args[15] == ms[2]
        }),
{
    let args = args_de_subir(nome, imagem, "hugesyslogs-rede"@, apelido, ms, comando);
    let n = ms.len() as int;
    lei_subida(nome, imagem, "hugesyslogs-rede"@, apelido, ms, comando);
    let resto = args.skip(10 + 2 * n);
    assert(resto == seq![imagem] + comando);
    lemma_tamanho_da_subida(nome, imagem, apelido, ms, comando);
    assert(resto[0] == args[10 + 2 * n]);
    assert forall|k: int| 0 <= k < comando.len() implies args[11 + 2 * n + k]
        == #[trigger] comando[k] by {
        assert(resto[k + 1] == args[10 + 2 * n + (k + 1)]);
        assert((seq![imagem] + comando)[k + 1] == comando[k]);
    }
    if n > 0 {
        let m = ms[0];
        assert(args.subrange(10, 12)[1] == args[11]);
    }
    if n > 1 {
        let m = ms[1];
        assert(args.subrange(12, 14)[1] == args[13]);
    }
    if n > 2 {
        let m = ms[2];
        assert(args.subrange(14, 16)[1] == args[15]);
    }
}

proof fn lemma_tamanho_da_subida(
    nome: Seq<char>,
    imagem: Seq<char>,
    apelido: Seq<char>,
    ms: Seq<Seq<char>>,
    comando: Seq<Seq<char>>,
)
    ensures
        args_de_subir(nome, imagem, "hugesyslogs-rede"@, apelido, ms, comando).len() == 11 + 2
            * ms.len() + comando.len(),
    decreases ms.len(),
{
    if ms.len() > 0 {
        lemma_tamanho_da_subida(nome, imagem, apelido, ms.drop_last(), comando);
    }
}

/// A validação monta o arquivo onde o rsyslog o procura, só para leitura, e os certificados quando o
/// modo os usa; e o container não sobra.
pub proof fn lei_validacao(arquivo: Seq<char>, imagem: Seq<char>, certs: Option<Seq<char>>)
    ensures
        ({
            let args = args_da_validacao(arquivo, imagem, certs);
            &&& args.take(2) == seq!["run"@, "--rm"@]
            &&& args[2] == "-v"@
            &&& args[3] == arquivo + ":"@ + args.last() + ":ro,Z"@
            &&& args[args.len() - 5] == imagem
            &&& args.skip(args.len() - 4) == seq!["rsyslogd"@, "-N1"@, "-f"@, "/tmp/teste.conf"@]
            &&& certs is None ==> args.len() == 9
            &&& certs matches Some(d) ==> args.len() == 11 && args[4] == "-v"@ && args[5] == d + ":"@
                + "/etc/hsb/certs"@ + ":ro,Z"@
        }),
{
    let args = args_da_validacao(arquivo, imagem, certs);
    let m = montagem(arquivo, "/tmp/teste.conf"@, true);
    let uma = seq![m];
    reveal_with_fuel(args_das_montagens, 3);
    assert(uma.drop_last().len() == 0 && uma.last() == m);
    assert(args_das_montagens(uma) =~= seq!["-v"@, m]);
    match certs {
        Some(d) => {
            let duas = seq![m, montagem(d, "/etc/hsb/certs"@, true)];
            assert(duas.drop_last() =~= uma);
            assert(args_das_montagens(duas) =~= seq!["-v"@, m, "-v"@, duas[1]]);
        },
        None => {},
    }
    assert(args.take(2) =~= seq!["run"@, "--rm"@]);
    assert(args.skip(args.len() - 4) =~= seq!["rsyslogd"@, "-N1"@, "-f"@, "/tmp/teste.conf"@]);
}

// ---- Ações do ciclo ----

/// Os receptores: todos sobem, na ordem, e só então se espera por cada um, na ordem.
pub proof fn lei_acoes_dos_receptores(cfg: Config, exec: Execucao, imagem: Seq<char>, i: nat)
    requires
        1 <= i <= cfg.receptores.quantidade,
    ensures
        ({
            let n = cfg.receptores.quantidade as int;
            let acoes = acoes_dos_receptores(cfg, exec, imagem);
            &&& acoes.len() == 2 * n + 2
            &&& acoes[i as int] == subir_receptor(cfg.tls.modo, exec, imagem, i)
            &&& acoes[n + i] == esperar_receptor(i)
        }),
{
}

/// Cada gerador do plano sobe uma vez, na ordem do plano: com o seu nome, que tem o prefixo pelo qual
/// a limpeza o acha, na rede do relay, com o seu comando e gravando em `/out`.
pub proof fn lei_acoes_dos_geradores(
    cfg: Config,
    ps: Seq<GeradorPlano>,
    exec: Execucao,
    imagem: Seq<char>,
    k: int,
)
    requires
        0 <= k < ps.len(),
    ensures
        ({
            let acoes = acoes_dos_geradores(cfg, ps, exec, imagem);
            &&& acoes.len() == 2 * ps.len()
            &&& acoes[2 * k] matches AcaoVista::Subir(args) && {
                &&& valor_da_opcao(args, "--name"@) == Some("hsb-"@ + "gen-"@ + ps[k].nome@)
                &&& valor_da_opcao(args, "--network"@) == Some("hugesyslogs-rede"@)
                &&& valor_da_opcao(args, "--network-alias"@) == Some("gen-"@ + ps[k].nome@)
                &&& args[11] == exec.out@ + ":"@ + "/out"@ + ":Z"@
                &&& args[12] == imagem
                &&& args.skip(13) == args_do_gerador(cfg, ps[k])
            }
            &&& acoes[2 * k + 1] is Anunciar
        }),
    decreases ps.len(),
{
    let antes = ps.drop_last();
    let acoes = acoes_dos_geradores(cfg, ps, exec, imagem);
    lemma_quantas_dos_geradores(cfg, antes, exec, imagem);
    assert(acoes_do_gerador(cfg, ps.last(), exec, imagem).len() == 2);
    if k < antes.len() {
        lei_acoes_dos_geradores(cfg, antes, exec, imagem, k);
        assert(acoes[2 * k] == acoes_dos_geradores(cfg, antes, exec, imagem)[2 * k]);
        assert(acoes[2 * k + 1] == acoes_dos_geradores(cfg, antes, exec, imagem)[2 * k + 1]);
    } else {
        let p = ps[k];
        let ms = seq![montagem(exec.out@, "/out"@, false)];
        let comando = args_do_gerador(cfg, p);
        let args = args_de_subir(
            "hsb-"@ + "gen-"@ + p.nome@,
            imagem,
            "hugesyslogs-rede"@,
            "gen-"@ + p.nome@,
            ms,
            comando,
        );
        assert(acoes[2 * k] == acoes_do_gerador(cfg, p, exec, imagem)[0]);
        assert(acoes[2 * k + 1] == acoes_do_gerador(cfg, p, exec, imagem)[1]);
        lei_subida(
            "hsb-"@ + "gen-"@ + p.nome@,
            imagem,
            "hugesyslogs-rede"@,
            "gen-"@ + p.nome@,
            ms,
            comando,
        );
        lemma_posicoes_da_subida(
            "hsb-"@ + "gen-"@ + p.nome@,
            imagem,
            "gen-"@ + p.nome@,
            ms,
            comando,
        );
        assert forall|j: int| 0 <= j < comando.len() implies args.skip(13)[j] == comando[j] by {}
        assert(args.skip(13) =~= comando);
    }
}

proof fn lemma_quantas_dos_geradores(
    cfg: Config,
    ps: Seq<GeradorPlano>,
    exec: Execucao,
    imagem: Seq<char>,
)
    ensures
        acoes_dos_geradores(cfg, ps, exec, imagem).len() == 2 * ps.len(),
    decreases ps.len(),
{
    if ps.len() > 0 {
        lemma_quantas_dos_geradores(cfg, ps.drop_last(), exec, imagem);
        assert(acoes_do_gerador(cfg, ps.last(), exec, imagem).len() == 2);
    }
}

/// Antes dos containers: a rede, o certificado se e somente se o modo o usa, e a validação; e entre
/// uma coisa e outra se checa a interrupção.
pub proof fn lei_acoes_iniciais(modo: ModoTls)
    ensures
        ({
            let acoes = acoes_iniciais(modo);
            let n = acoes.len() as int;
            &&& acoes[1] is CriarRede
            &&& acoes[2] is ChecarInterrupcao
            &&& acoes[4] is GerarCertificado <==> modo == ModoTls::Certvalid
            &&& acoes[n - 4] is ChecarInterrupcao
            &&& acoes[n - 2] is ValidarConfs
            &&& acoes[n - 1] is ChecarInterrupcao
            &&& n == if modo == ModoTls::Certvalid { 10int } else { 9int }
        }),
{
}

/// Depois que os geradores sobem: espera-se por eles a duração, o aquecimento e um minuto; drena-se
/// pelo tempo configurado; param-se o relay e cada receptor; e meio segundo depois se relata.
pub proof fn lei_acoes_finais(cfg: Config)
    ensures
        ({
            let acoes = acoes_finais(cfg);
            let n = cfg.receptores.quantidade as int;
            &&& acoes.len() == n + 8
            &&& acoes[1] == AcaoVista::AguardarGeradores {
                limite: cfg.teste.duracao.total() + cfg.teste.aquecimento.total()
                    + 60_000_000_000nat,
            }
            &&& acoes[3] == AcaoVista::Drenar(cfg.teste.drenagem.total())
            &&& acoes[5] == acoes_ate_parar_o_relay(cfg)[5] && acoes[5] is Parar
            &&& forall|i: int|
                0 <= i < n ==> #[trigger] acoes[6 + i] == acoes_de_parar_receptores(n as nat)[i]
                    && acoes[6 + i] is Parar
            &&& acoes[n + 6] == AcaoVista::Assentar(500_000_000)
            &&& acoes[n + 7] is Relatar
        }),
{
}

/// Os diretórios criados são os da execução, e só o ciclo de um teste possível roda.
pub proof fn lei_diretorios_antes_do_ciclo(
    exec: Execucao,
    imagem: Seq<char>,
    podman_disponivel: bool,
    imagem_existe: bool,
    manter: bool,
)
    ensures
        ({
            let es = etapas(exec, imagem, podman_disponivel, imagem_existe, manter);
            let pode = podman_disponivel && imagem_existe;
            &&& pode ==> es[0] == EtapaVista::CriarDiretorios(
                seq![exec.raiz@, exec.conf@, exec.certs@, exec.out@],
            )
            &&& es.contains(EtapaVista::RodarCiclo) <==> pode
            &&& pode ==> es.len() == if manter { 5nat } else { 6nat }
        }),
{
    let es = etapas(exec, imagem, podman_disponivel, imagem_existe, manter);
    if podman_disponivel && imagem_existe {
        assert(es[3] is RodarCiclo);
    }
}

/// Os diretórios de uma execução ficam dentro dela, e ela dentro da base.
pub proof fn lei_diretorios_da_execucao(exec: Execucao, base: Seq<char>)
    requires
        exec.fica_em(base),
        base.len() > 0,
        base.last() != '/',
        exec.id@.len() > 0,
        exec.id@[0] != '/',
        exec.id@.last() != '/',
    ensures
        exec.raiz@ == base + "/"@ + exec.id@,
        exec.conf@ == exec.raiz@ + "/"@ + "conf"@,
        exec.certs@ == exec.raiz@ + "/"@ + "certs"@,
        exec.out@ == exec.raiz@ + "/"@ + "out"@,
{
    reveal_strlit("conf");
    reveal_strlit("certs");
    reveal_strlit("out");
    assert("conf"@[0] == 'c' && "certs"@[0] == 'c' && "out"@[0] == 'o');
    assert(exec.raiz@.last() == exec.id@.last());
}

/// A validação de um arquivo é a do que a execução gravou com o nome dele, com os certificados da
/// execução se e somente se o modo os usa.
pub proof fn lei_validacao_do_arquivo(
    v: Validacao,
    cfg: Config,
    exec: Execucao,
    imagem: Seq<char>,
    arquivo: Seq<char>,
)
    requires
        valida_o_arquivo(v, cfg, exec, imagem, arquivo),
    ensures
        v.arquivo@ == arquivo,
        v.comando@.len() == if cfg.tls.modo == ModoTls::Certvalid {
            11nat
        } else {
            9nat
        },
        v.comando@[3]@ == caminho(exec.conf@, arquivo) + ":"@ + "/tmp/teste.conf"@ + ":ro,Z"@,
        cfg.tls.modo == ModoTls::Certvalid ==> v.comando@[5]@ == exec.certs@ + ":"@
            + "/etc/hsb/certs"@ + ":ro,Z"@,
{
    let certs = if cfg.tls.modo == ModoTls::Certvalid {
        Some(exec.certs@)
    } else {
        None
    };
    let onde = caminho(exec.conf@, arquivo);
    let args = args_da_validacao(onde, imagem, certs);
    lei_validacao(onde, imagem, certs);
    let t = textos(v.comando@);
    assert(t == args);
    assert(t.len() == v.comando@.len());
    assert(t[3] == v.comando@[3]@);
    assert(args.last() == args.skip(args.len() - 4)[3]);
    if cfg.tls.modo == ModoTls::Certvalid {
        assert(t[5] == v.comando@[5]@);
    }
}

/// No modo que valida, o relay confia no certificado dos receptores; no outro nenhum é citado antes da
/// primeira seção.
pub proof fn lei_certificado_do_relay(modo: ModoTls)
    ensures
        modo == ModoTls::Certvalid ==> contem(
            entrada_do_relay(modo),
            "    DefaultNetstreamDriver=\"gtls\"\n    DefaultNetstreamDriverCAFile=\"/etc/hsb/certs/cert.pem\"\n"@,
        ),
        modo == ModoTls::Anon ==> comeca(
            entrada_do_relay(modo),
            "# Relay gerado pelo HugeSyslogs.\nglobal(\n    workDirectory=\"/tmp\"\n"@ + ")\n\n"@,
        ),
{
    let s = entrada_do_relay(modo);
    let a = "# Relay gerado pelo HugeSyslogs.\nglobal(\n    workDirectory=\"/tmp\"\n"@;
    let c = certificado_do_relay(modo);
    if modo == ModoTls::Certvalid {
        let resto = s.skip((a + c).len() as int);
        lemma_no_meio(a, c, resto);
        assert(s =~= a + c + resto);
    } else {
        reveal_strlit(")\n\n");
        reveal_strlit(
            ")\n\nmodule(load=\"impstats\" interval=\"5\" format=\"json\"\n       log.file=\"/out/relay-stats.log\" log.syslog=\"off\" resetCounters=\"off\")\n\nmodule(load=\"imudp\")\ninput(type=\"imudp\" port=\"",
        );
        let d = ")\n\n"@;
        let b =
            ")\n\nmodule(load=\"impstats\" interval=\"5\" format=\"json\"\n       log.file=\"/out/relay-stats.log\" log.syslog=\"off\" resetCounters=\"off\")\n\nmodule(load=\"imudp\")\ninput(type=\"imudp\" port=\""@;
        assert(b.take(3) =~= d);
        let n = a.len() as int;
        assert(s.take(n + 3) =~= a + d) by {
            assert forall|i: int| 0 <= i < n + 3 implies s.take(n + 3)[i] == (a + d)[i] by {
                if i >= n {
                    assert(s[i] == b[i - n]);
                    assert(b.take(3)[i - n] == b[i - n]);
                }
            }
        }
    }
}

/// O receptor grava em `/out`, num arquivo com o seu nome e a extensão `.log`.
pub proof fn lei_log_do_receptor(cfg: Config, i: usize)
    ensures
        contem(
            conf_do_receptor(cfg, i),
            "/out/"@ + (nome_do_receptor(i as nat) + ".log"@) + "\" template=\"hsb\""@,
        ),
{
    let a = "# Receptor gerado pelo HugeSyslogs.\nglobal(\n    workDirectory=\"/tmp\"\n"@
        + certificado_do_receptor(cfg.tls.modo)
        + ")\n\nmodule(load=\"imtcp\"\n       StreamDriver.Name=\"gtls\"\n       StreamDriver.Mode=\"1\"\n       StreamDriver.AuthMode=\"anon\")\n\ninput(type=\"imtcp\" port=\""@
        + digitos(6514)
        + "\")\n\ntemplate(name=\"hsb\" type=\"string\"\n         string=\"%timegenerated:::date-rfc3339% %msg:1:"@
        + digitos(RECORTE as nat);
    let b = "%\\n\")\n\naction(type=\"omfile\" file=\"/out/"@;
    let log = nome_do_receptor(i as nat) + ".log"@;
    let c =
        "\" template=\"hsb\"\n       asyncWriting=\"on\" ioBufferSize=\"64k\" flushOnTXEnd=\"off\")\n"@;
    let x = "/out/"@;
    let y = "\" template=\"hsb\""@;
    reveal_strlit("%\\n\")\n\naction(type=\"omfile\" file=\"/out/");
    reveal_strlit(
        "\" template=\"hsb\"\n       asyncWriting=\"on\" ioBufferSize=\"64k\" flushOnTXEnd=\"off\")\n",
    );
    reveal_strlit("/out/");
    reveal_strlit("\" template=\"hsb\"");
    assert(acaba(b, x)) by {
        assert(b.skip(b.len() - x.len()) =~= x);
    }
    assert(comeca(c, y)) by {
        assert(c.take(y.len() as int) =~= y);
    }
    lemma_entre(a, b, log, c, Seq::empty(), x, y);
    assert(a + b + log + c + Seq::empty() =~= a + b + log + c);
}

} // verus!
